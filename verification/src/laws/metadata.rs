//! What is read out of the payload of an AppImage.
use vstd::prelude::*;

use crate::desktop::{lookup, parsed, DesktopView, Pair};
use crate::failure::{IoFailure, ToolOutput};
use crate::laws::desktop::{one_line, whole_lines};
use crate::laws::text::{blank, law_decimal, law_lines, law_split, law_strip_all, law_trim, tight};
use crate::metadata::{after, app_install_name, cleaned_name, desktop_in, desktop_line,
    dir_icon_read, dir_listing, extracted, icon_of, icons_of, icons_read, is_after, is_extracted,
    listed, listed_path, listing, lists_path, names_path, names_root_desktop, root_desktop,
    stage_args, under_root, valid_desktop, without_slash, Extracted, Extraction, IconView,
    MetadataError, MetadataErrorView, MetadataView, Progress, StageView, HICOLOR};
use crate::paths::{file_name, stem};
use crate::text::{decimal, has_char, join, lemma_lines_append, lemma_lines_no_feed, lemma_trim,
    lemma_trim_end, lemma_trim_id, lines, lower, split, strip_all, trim, utf8_lossy, whitespace};

verus! {

// ---------------------------------------------------------------------------
// Listings
// ---------------------------------------------------------------------------
/// A path as the payload has it: neither it nor anything that a tool would put
/// before it is to be taken away.
pub open spec fn payload_path(path: Seq<char>) -> bool {
    &&& path.len() > 0
    &&& !whitespace(path.last())
    &&& !"squashfs-root/"@.is_prefix_of(path)
    &&& !"./"@.is_prefix_of(path)
}

proof fn lemma_suffix_trans(a: Seq<char>, b: Seq<char>, c: Seq<char>)
    requires
        a.is_suffix_of(b),
        b.is_suffix_of(c),
    ensures
        a.is_suffix_of(c),
{
    assert(c.skip(c.len() - a.len()) =~= b.skip(b.len() - a.len()));
}

proof fn lemma_line_of_path(path: Seq<char>)
    requires
        payload_path(path),
    ensures
        trim("squashfs-root/"@ + path) == "squashfs-root/"@ + path,
        listed_path("squashfs-root/"@ + path) == path,
        "squashfs-root/"@ + path != "squashfs-root"@,
{
    reveal_strlit("squashfs-root/");
    reveal_strlit("squashfs-root");
    reveal_strlit("./");
    let l = "squashfs-root/"@ + path;
    lemma_trim_id(l);
    assert(l[0] == 's');
    assert(l.last() == path.last());
    law_strip_all("squashfs-root/"@, path);
    law_strip_all("./"@, path);
    assert(l.len() > "squashfs-root"@.len());
}

/// The path on a line of a listing is what stands behind the name of the payload's
/// root, or behind the dot that stands for it, or the whole line.
pub proof fn law_listed_path(path: Seq<char>)
    requires
        payload_path(path),
    ensures
        listed_path("squashfs-root/"@ + path) == path,
        listed_path("./"@ + path) == path,
        listed_path(path) == path,
{
    reveal_strlit("squashfs-root/");
    reveal_strlit("./");
    lemma_line_of_path(path);
    let l = "./"@ + path;
    assert(l[0] == '.');
    if "squashfs-root/"@.is_prefix_of(l) {
        assert(l.take(14)[0] == 's');
    }
    law_strip_all("squashfs-root/"@, l);
    law_strip_all("squashfs-root/"@, path);
    law_strip_all("./"@, path);
}

/// White space around a line of a listing does not count.
pub proof fn law_space_around_a_listed_path(
    before: Seq<char>,
    l: Seq<char>,
    behind: Seq<char>,
    root: Seq<char>,
    path: Seq<char>,
)
    requires
        blank(before),
        blank(behind),
        tight(l),
    ensures
        listed(seq![before + l + behind], root) == listed(seq![l], root),
        desktop_line(seq![before + l + behind]) == desktop_line(seq![l]),
        names_path(seq![before + l + behind], path) == names_path(seq![l], path),
{
    let none = Seq::<char>::empty();
    let x = before + l + behind;
    law_trim(before, l, behind);
    law_trim(none, l, none);
    assert(none + l + none =~= l);
    lemma_listed_one(x, root);
    lemma_listed_one(l, root);
    let a = seq![x];
    let b = seq![l];
    assert(a[0] == x && b[0] == l);
    reveal_with_fuel(desktop_line, 2);
    assert(a.drop_first().len() == 0 && b.drop_first().len() == 0);
    if names_path(a, path) {
        assert(listed_path(trim(b[0])) == path);
    }
    if names_path(b, path) {
        assert(listed_path(trim(a[0])) == path);
    }
}

proof fn lemma_listed_append(a: Seq<Seq<char>>, b: Seq<Seq<char>>, root: Seq<char>)
    ensures
        listed(a + b, root) == listed(a, root) + listed(b, root),
    decreases b.len(),
{
    if b.len() == 0 {
        assert(a + b =~= a);
        assert(listed(a, root) + listed(b, root) =~= listed(a, root));
    } else {
        lemma_listed_append(a, b.drop_last(), root);
        assert((a + b).drop_last() =~= a + b.drop_last());
        assert((a + b).last() == b.last());
        assert(listed(a + b, root) =~= listed(a, root) + listed(b, root));
    }
}

/// A listing is filtered line by line, in its order: a line keeps its path where
/// that is the directory asked for or lies in it, and is dropped otherwise. The
/// line of the payload's root and blank lines are dropped too. A slash at the end
/// of the directory says nothing, and the empty directory holds everything.
pub proof fn law_listing_line(
    a: Seq<Seq<char>>,
    b: Seq<Seq<char>>,
    path: Seq<char>,
    root: Seq<char>,
    w: Seq<char>,
)
    requires
        payload_path(path),
        root.len() > 0,
        root.last() != '/',
        blank(w),
    ensures
        listed(a + b, root) == listed(a, root) + listed(b, root),
        path == root || (root + seq!['/']).is_prefix_of(path) ==> listed(
            seq!["squashfs-root/"@ + path],
            root,
        ) == seq![path],
        path != root && !(root + seq!['/']).is_prefix_of(path) ==> listed(
            seq!["squashfs-root/"@ + path],
            root,
        ) == Seq::<Seq<char>>::empty(),
        listed(seq!["squashfs-root/"@ + path], seq![]) == seq![path],
        listed(seq!["squashfs-root/"@ + path], root + seq!['/']) == listed(
            seq!["squashfs-root/"@ + path],
            root,
        ),
        listed(seq!["squashfs-root"@], root) == Seq::<Seq<char>>::empty(),
        listed(seq![w], root) == Seq::<Seq<char>>::empty(),
{
    reveal_strlit("/");
    reveal_strlit("squashfs-root");
    assert("/"@ =~= seq!['/']);
    lemma_listed_append(a, b, root);
    lemma_line_of_path(path);
    let l = "squashfs-root/"@ + path;
    lemma_listed_one(l, root);
    lemma_listed_one(l, seq![]);
    lemma_listed_one(l, root + seq!['/']);
    assert((root + seq!['/']).drop_last() =~= root);
    assert((root + seq!['/']).last() == '/');
    lemma_listed_one("squashfs-root"@, root);
    lemma_trim_id("squashfs-root"@);
    law_trim(w, seq!['x'], seq![]);
    lemma_listed_one(w, root);
}

proof fn lemma_listed_one(l: Seq<char>, root: Seq<char>)
    ensures
        listed(seq![l], root) == (if trim(l).len() > 0 && trim(l) != "squashfs-root"@ && under_root(
            listed_path(trim(l)),
            root,
        ) {
            seq![listed_path(trim(l))]
        } else {
            Seq::<Seq<char>>::empty()
        }),
{
    reveal_with_fuel(listed, 2);
    assert(seq![l].drop_last() =~= seq![]);
    assert(seq![l].last() == l);
    assert(Seq::<Seq<char>>::empty().push(listed_path(trim(l))) =~= seq![listed_path(trim(l))]);
}

proof fn lemma_listed_paths(ls: Seq<Seq<char>>, root: Seq<char>)
    requires
        without_slash(root).len() > 0,
        forall|i: int| 0 <= i < ls.len() ==> one_line(#[trigger] ls[i]),
    ensures
        forall|i: int|
            #![trigger listed(ls, root)[i]]
            0 <= i < listed(ls, root).len() ==> {
                let p = listed(ls, root)[i];
                p.len() > 0 && one_line(p) && p.last() != '\r'
            },
    decreases ls.len(),
{
    if ls.len() > 0 {
        let rest = ls.drop_last();
        assert forall|i: int| 0 <= i < rest.len() implies one_line(#[trigger] rest[i]) by {
            assert(rest[i] == ls[i]);
        }
        lemma_listed_paths(rest, root);
        let l = ls[ls.len() - 1];
        assert(one_line(l));
        let t = trim(l);
        lemma_trim(l);
        lemma_trim_end(l);
        let p = listed_path(t);
        reveal_strlit("squashfs-root/");
        reveal_strlit("./");
        law_strip_all("squashfs-root/"@, t);
        law_strip_all("./"@, strip_all(t, "squashfs-root/"@));
        lemma_suffix_trans(p, strip_all(t, "squashfs-root/"@), t);
        if under_root(p, root) {
            assert(p.len() > 0);
            assert(p.last() == t.last());
            assert forall|i: int| 0 <= i < p.len() implies p[i] != '\n' by {
                assert(p[i] == t[t.len() - p.len() + i]);
            }
        }
        assert forall|i: int|
            #![trigger listed(ls, root)[i]]
            0 <= i < listed(ls, root).len() implies {
            let q = listed(ls, root)[i];
            q.len() > 0 && one_line(q) && q.last() != '\r'
        } by {
            if i < listed(rest, root).len() {
                assert(listed(ls, root)[i] == listed(rest, root)[i]);
            }
        }
    }
}

proof fn lemma_lines_of_join(parts: Seq<Seq<char>>)
    requires
        forall|i: int|
            0 <= i < parts.len() ==> (#[trigger] parts[i]).len() > 0 && one_line(parts[i])
                && parts[i].last() != '\r',
    ensures
        lines(join(parts, "\n"@)) == parts,
    decreases parts.len(),
{
    reveal_strlit("\n");
    assert("\n"@ =~= seq!['\n']);
    if parts.len() == 0 {
        assert(lines(join(parts, "\n"@)) =~= parts);
    } else if parts.len() == 1 {
        law_lines(parts[0], seq![]);
        assert(parts =~= seq![parts[0]]);
    } else {
        let rest = parts.drop_first();
        assert forall|i: int| 0 <= i < rest.len() implies (#[trigger] rest[i]).len() > 0
            && one_line(rest[i]) && rest[i].last() != '\r' by {
            assert(rest[i] == parts[i + 1]);
        }
        lemma_lines_of_join(rest);
        law_lines(parts[0], join(rest, "\n"@));
        assert(seq![parts[0]] + rest =~= parts);
    }
}

/// A filtered listing has one line for each path that it keeps.
pub proof fn law_listing_lines(raw: Seq<char>, root: Seq<char>)
    requires
        root.len() > 0,
        root.last() != '/',
    ensures
        lines(listing(raw, root)) == listed(lines(raw), root),
{
    lemma_lines_no_feed(raw);
    assert forall|i: int| 0 <= i < lines(raw).len() implies one_line(#[trigger] lines(raw)[i]) by {
        assert(!has_char(lines(raw)[i], '\n'));
    }
    lemma_listed_paths(lines(raw), root);
    lemma_lines_of_join(listed(lines(raw), root));
}

/// A path is in the payload where a line of the listing names it, wherever that
/// line stands; a listing without a line has no path.
pub proof fn law_path_is_named(x: Seq<char>, path: Seq<char>, y: Seq<char>)
    requires
        whole_lines(x),
        payload_path(path),
        one_line(path),
    ensures
        names_path(lines(x + ("squashfs-root/"@ + path) + seq!['\n'] + y), path),
        !names_path(lines(Seq::<char>::empty()), path),
        forall|o: ToolOutput|
            #![trigger lists_path(Ok(o), path)]
            lists_path(Ok(o), path) == names_path(lines(utf8_lossy(o.stdout@)), path),
        forall|e: IoFailure| #![trigger lists_path(Err(e), path)] !lists_path(Err(e), path),
{
    let l = "squashfs-root/"@ + path;
    lemma_line_of_path(path);
    lemma_middle_line(x, l, y, path);
    let all = lines(x + l + seq!['\n'] + y);
    assert(listed_path(trim(all[lines(x).len() as int])) == path);
}

/// A file of another name, or of the same name in another directory, is not taken
/// for the one that is asked for.
pub proof fn law_other_paths_are_not_named(ls: Seq<Seq<char>>, path: Seq<char>)
    requires
        forall|i: int|
            0 <= i < ls.len() ==> exists|p: Seq<char>|
                payload_path(p) && p != path && #[trigger] ls[i] == "squashfs-root/"@ + p,
    ensures
        !names_path(ls, path),
{
    assert forall|i: int| 0 <= i < ls.len() implies listed_path(trim(#[trigger] ls[i])) != path by {
        let p = choose|p: Seq<char>|
            payload_path(p) && p != path && ls[i] == "squashfs-root/"@ + p;
        lemma_line_of_path(p);
    }
}

proof fn lemma_middle_line(x: Seq<char>, l: Seq<char>, y: Seq<char>, path: Seq<char>)
    requires
        whole_lines(x),
        l == "squashfs-root/"@ + path,
        payload_path(path),
        one_line(path),
    ensures
        one_line(l),
        lines(x + l + seq!['\n'] + y) == lines(x) + (seq![l] + lines(y)),
        lines(x + l + seq!['\n'] + y)[lines(x).len() as int] == l,
{
    reveal_strlit("squashfs-root/");
    assert forall|i: int| 0 <= i < l.len() implies l[i] != '\n' by {
        if i >= "squashfs-root/"@.len() {
            assert(l[i] == path[i - "squashfs-root/"@.len()]);
        }
    }
    law_lines(l, y);
    lemma_lines_append(x, l + seq!['\n'] + y);
    assert(x + (l + seq!['\n'] + y) =~= x + l + seq!['\n'] + y);
    assert(l.last() == path.last());
    assert(l.last() != '\r');
}

// ---------------------------------------------------------------------------
// The desktop entry
// ---------------------------------------------------------------------------
/// A line of a listing that names nothing at the root that ends in `.desktop`: it
/// ends otherwise, or names something in a directory.
pub open spec fn other_line(l: Seq<char>) -> bool {
    ||| !".desktop"@.is_suffix_of(trim(l))
    ||| exists|dir: Seq<char>, rest: Seq<char>|
        {
            &&& trim(l) == #[trigger] ("squashfs-root/"@ + dir + seq!['/'] + rest)
            &&& dir.len() > 0
            &&& dir != "."@
            &&& dir != "squashfs-root"@
            &&& forall|i: int| 0 <= i < dir.len() ==> dir[i] != '/'
        }
}

proof fn lemma_other_line(l: Seq<char>)
    requires
        other_line(l),
    ensures
        !names_root_desktop(l),
{
    reveal_strlit("squashfs-root/");
    reveal_strlit("squashfs-root");
    reveal_strlit("./");
    reveal_strlit(".");
    let t = trim(l);
    let p = listed_path(t);
    let inner = strip_all(t, "squashfs-root/"@);
    law_strip_all("squashfs-root/"@, t);
    law_strip_all("./"@, inner);
    if !".desktop"@.is_suffix_of(t) {
        if ".desktop"@.is_suffix_of(p) {
            lemma_suffix_trans(".desktop"@, p, inner);
            lemma_suffix_trans(".desktop"@, inner, t);
        }
    } else {
        let (dir, rest) = choose|dir: Seq<char>, rest: Seq<char>|
            {
                &&& trim(l) == #[trigger] ("squashfs-root/"@ + dir + seq!['/'] + rest)
                &&& dir.len() > 0
                &&& dir != "."@
                &&& dir != "squashfs-root"@
                &&& forall|i: int| 0 <= i < dir.len() ==> dir[i] != '/'
            };
        let s = dir + seq!['/'] + rest;
        let n = dir.len() as int;
        assert(t =~= "squashfs-root/"@ + s);
        law_strip_all("squashfs-root/"@, s);
        assert(s[n] == '/');
        if "squashfs-root/"@.is_prefix_of(s) {
            let r = "squashfs-root/"@;
            assert(s.take(r.len() as int) == r);
            assert(s[13] == r[13]);
            assert(n <= 13) by {
                if n > 13 {
                    assert(s[13] == dir[13]);
                }
            }
            assert(r[n] == '/') by {
                assert(s.take(r.len() as int)[n] == r[n]);
            }
            assert(n == 13);
            assert forall|i: int| 0 <= i < 13 implies dir[i] == "squashfs-root"@[i] by {
                assert(s.take(r.len() as int)[i] == r[i]);
                assert(s[i] == dir[i]);
            }
            assert(dir =~= "squashfs-root"@);
        }
        law_strip_all("./"@, s);
        if "./"@.is_prefix_of(s) {
            let r = "./"@;
            assert(s.take(2)[0] == r[0] && s.take(2)[1] == r[1]);
            assert(s[0] == dir[0]);
            if n > 1 {
                assert(s[1] == dir[1]);
            }
            assert(dir =~= "."@);
        }
        assert(p == s);
        assert(p[n] == '/');
    }
}

proof fn lemma_desktop_append(a: Seq<Seq<char>>, b: Seq<Seq<char>>)
    ensures
        desktop_line(a) is Some ==> desktop_line(a + b) == desktop_line(a),
        desktop_line(a) is None ==> desktop_line(a + b) == desktop_line(b),
    decreases a.len(),
{
    if a.len() == 0 {
        assert(a + b =~= b);
    } else {
        lemma_desktop_append(a.drop_first(), b);
        assert((a + b).drop_first() =~= a.drop_first() + b);
        assert((a + b)[0] == a[0]);
    }
}

proof fn lemma_no_desktop(ls: Seq<Seq<char>>)
    requires
        forall|i: int| 0 <= i < ls.len() ==> other_line(#[trigger] ls[i]),
    ensures
        desktop_line(ls) is None,
    decreases ls.len(),
{
    if ls.len() > 0 {
        assert(other_line(ls[0]));
        lemma_other_line(ls[0]);
        let rest = ls.drop_first();
        assert forall|i: int| 0 <= i < rest.len() implies other_line(#[trigger] rest[i]) by {
            assert(rest[i] == ls[i + 1]);
        }
        lemma_no_desktop(rest);
    }
}

/// Any file at the root of the payload whose name ends in `.desktop` is a desktop
/// entry, whatever else its name holds: where a line of the listing names one,
/// one is found; and it is that one, where no line before it names another. Where
/// no line names one, none is found.
pub proof fn law_root_desktop_is_found(x: Seq<char>, start: Seq<char>, y: Seq<char>)
    requires
        whole_lines(x),
        one_line(start),
        forall|i: int| 0 <= i < start.len() ==> start[i] != '/',
    ensures
        ({
            let name = start + ".desktop"@;
            let found = desktop_line(lines(x + ("squashfs-root/"@ + name) + seq!['\n'] + y));
            &&& found is Some
            &&& (forall|i: int| 0 <= i < lines(x).len() ==> other_line(#[trigger] lines(x)[i]))
                ==> found == Some(name)
        }),
        (forall|i: int| 0 <= i < lines(x).len() ==> other_line(#[trigger] lines(x)[i]))
            ==> desktop_line(lines(x)) is None,
{
    reveal_strlit(".desktop");
    reveal_strlit("squashfs-root/");
    reveal_strlit("./");
    let name = start + ".desktop"@;
    let l = "squashfs-root/"@ + name;
    assert forall|i: int| 0 <= i < name.len() implies name[i] != '/' && name[i] != '\n' by {
        if i < start.len() {
            assert(name[i] == start[i]);
        }
    }
    if "squashfs-root/"@.is_prefix_of(name) {
        assert(name.take(14)[13] == '/');
        assert(name[13] == '/');
    }
    if "./"@.is_prefix_of(name) {
        assert(name.take(2)[1] == '/');
        assert(name[1] == '/');
    }
    assert(name.last() == 'p');
    lemma_line_of_path(name);
    lemma_middle_line(x, l, y, name);
    assert(name.skip(name.len() - ".desktop"@.len()) =~= ".desktop"@);
    assert(names_root_desktop(l)) by {
        if has_char(name, '/') {
            let i = choose|i: int| 0 <= i < name.len() && name[i] == '/';
            assert(name[i] != '/');
        }
    }
    let tail = seq![l] + lines(y);
    assert(tail[0] == l);
    assert(desktop_line(tail) == Some(name));
    lemma_desktop_append(lines(x), tail);
    if forall|i: int| 0 <= i < lines(x).len() ==> other_line(#[trigger] lines(x)[i]) {
        lemma_no_desktop(lines(x));
    }
}

proof fn lemma_strip_at_slash(s: Seq<char>, p: Seq<char>)
    requires
        p.len() > 0,
        p.last() == '/',
    ensures
        strip_all(s, p) == s || (seq!['/'] + strip_all(s, p)).is_suffix_of(s),
    decreases s.len(),
{
    if p.is_prefix_of(s) {
        let rest = s.skip(p.len() as int);
        lemma_strip_at_slash(rest, p);
        let t = strip_all(s, p);
        law_strip_all(p, s);
        if t == rest {
            assert(s.take(p.len() as int).last() == '/');
            assert(s[p.len() - 1] == '/');
            assert(s.skip(s.len() - t.len() - 1) =~= seq!['/'] + t);
        } else {
            let u = seq!['/'] + t;
            assert(s.skip(s.len() - u.len()) =~= rest.skip(rest.len() - u.len()));
        }
    }
}

/// What is found is a file at the root that a line names: that line is its name,
/// or ends in a slash and its name.
pub proof fn law_found_desktop_is_listed(ls: Seq<Seq<char>>)
    ensures
        desktop_line(ls) matches Some(name) ==> {
            &&& ".desktop"@.is_suffix_of(name)
            &&& forall|i: int| 0 <= i < name.len() ==> name[i] != '/'
            &&& exists|k: int|
                0 <= k < ls.len() && (trim(#[trigger] ls[k]) == name || (seq!['/']
                    + name).is_suffix_of(trim(ls[k])))
        },
    decreases ls.len(),
{
    if ls.len() > 0 {
        let rest = ls.drop_first();
        law_found_desktop_is_listed(rest);
        if names_root_desktop(ls[0]) {
            reveal_strlit("squashfs-root/");
            reveal_strlit("./");
            let t = trim(ls[0]);
            let inner = strip_all(t, "squashfs-root/"@);
            let name = listed_path(t);
            lemma_strip_at_slash(t, "squashfs-root/"@);
            lemma_strip_at_slash(inner, "./"@);
            law_strip_all("squashfs-root/"@, t);
            if name != inner {
                lemma_suffix_trans(seq!['/'] + name, inner, t);
            }
            assert(!has_char(name, '/'));
        } else if desktop_line(rest) is Some {
            let name = desktop_line(rest)->0;
            let k = choose|k: int|
                0 <= k < rest.len() && (trim(#[trigger] rest[k]) == name || (seq!['/']
                    + name).is_suffix_of(trim(rest[k])));
            assert(rest[k] == ls[k + 1]);
        }
    }
}

/// The run that lists the payload gives the name of the desktop entry, or the
/// reason why there is none.
pub proof fn law_root_run(o: ToolOutput, e: IoFailure)
    ensures
        desktop_line(lines(utf8_lossy(o.stdout@))) matches Some(name) ==> root_desktop(Ok(o))
            == Ok::<Seq<char>, MetadataErrorView>(name),
        desktop_line(lines(utf8_lossy(o.stdout@))) is None ==> root_desktop(Ok(o)) == Err::<
            Seq<char>,
            MetadataErrorView,
        >(MetadataErrorView::NoDesktopEntry),
        root_desktop(Err(e)) == Err::<Seq<char>, MetadataErrorView>(
            if e.not_found {
                MetadataErrorView::UnsquashfsNotFound
            } else {
                MetadataErrorView::Io(e)
            },
        ),
{
}

/// An entry is taken as it was parsed, whatever it says, where it has a name; and
/// it is refused where it has none.
pub proof fn law_entry_needs_a_name(content: Seq<char>)
    ensures
        ({
            let keys = parsed(content).keys;
            &&& (exists|i: int| 0 <= i < keys.len() && (#[trigger] keys[i]).0 == "Name"@)
                ==> valid_desktop(content) == Ok::<DesktopView, MetadataErrorView>(parsed(content))
            &&& (forall|i: int| 0 <= i < keys.len() ==> (#[trigger] keys[i]).0 != "Name"@)
                ==> valid_desktop(content) == Err::<DesktopView, MetadataErrorView>(
                MetadataErrorView::InvalidDesktopEntry("missing Name"@),
            )
        }),
        forall|o: ToolOutput|
            #![trigger extracted(Ok(o), true)]
            o.success && utf8_lossy(o.stdout@) == content ==> desktop_in(extracted(Ok(o), true))
                == valid_desktop(content),
{
    let keys = parsed(content).keys;
    crate::desktop::lemma_key_pos(keys, "Name"@);
    if exists|i: int| 0 <= i < keys.len() && (#[trigger] keys[i]).0 == "Name"@ {
        let i = choose|i: int| 0 <= i < keys.len() && (#[trigger] keys[i]).0 == "Name"@;
        assert(crate::desktop::key_pos(keys, "Name"@) <= i);
    }
}

// ---------------------------------------------------------------------------
// Files and icons
// ---------------------------------------------------------------------------
/// What the tool wrote is the file, all of it, also where the tool failed behind
/// it; a tool that could not run is a failure, and one that complained of a file
/// that is there says why.
pub proof fn law_extracted(o: ToolOutput, e: IoFailure, listed: bool)
    ensures
        o.success ==> extracted(Ok(o), listed) == Extracted::File(o.stdout@),
        o.stdout@.len() > 0 ==> extracted(Ok(o), listed) == Extracted::File(o.stdout@),
        !o.success && o.stdout@.len() == 0 && o.stderr@.len() == 0 ==> extracted(Ok(o), listed)
            == Extracted::Missing,
        !o.success && o.stdout@.len() == 0 && o.stderr@.len() > 0 ==> extracted(Ok(o), true)
            == Extracted::Failure(
            MetadataErrorView::Extract("unsquashfs: "@ + utf8_lossy(o.stderr@)),
        ),
        !o.success && o.stdout@.len() == 0 ==> extracted(Ok(o), false) == Extracted::Missing,
        e.not_found ==> extracted(Err(e), listed) == Extracted::Failure(
            MetadataErrorView::UnsquashfsNotFound,
        ),
        !e.not_found ==> extracted(Err(e), listed) == Extracted::Failure(MetadataErrorView::Io(e)),
{
}

/// A listing is read wherever the tool succeeded or wrote anything.
pub proof fn law_dir_listing(o: ToolOutput, e: IoFailure, root: Seq<char>)
    ensures
        e.not_found ==> dir_listing(Err(e), root) == Err::<Seq<char>, MetadataErrorView>(
            MetadataErrorView::UnsquashfsNotFound,
        ),
        !e.not_found ==> dir_listing(Err(e), root) == Err::<Seq<char>, MetadataErrorView>(
            MetadataErrorView::Io(e),
        ),
        o.success || o.stdout@.len() > 0 ==> dir_listing(Ok(o), root) == Ok::<
            Seq<char>,
            MetadataErrorView,
        >(listing(utf8_lossy(o.stdout@), root)),
        !o.success && o.stdout@.len() == 0 ==> dir_listing(Ok(o), root) == Err::<
            Seq<char>,
            MetadataErrorView,
        >(MetadataErrorView::Extract("unsquashfs -ls: "@ + utf8_lossy(o.stderr@))),
{
}

/// The entry that was listed and then not there, or could not be read, is an error
/// and not an empty entry.
pub proof fn law_entry_must_be_there(e: MetadataErrorView)
    ensures
        desktop_in(Extracted::Missing) == Err::<DesktopView, MetadataErrorView>(
            MetadataErrorView::NoDesktopEntry,
        ),
        desktop_in(Extracted::Failure(e)) == Err::<DesktopView, MetadataErrorView>(e),
{
}

/// What a run comes to is what the library returns for it.
pub proof fn law_file_result(
    r: Result<Option<Vec<u8>>, MetadataError>,
    bytes: Seq<u8>,
    e: MetadataErrorView,
)
    ensures
        is_extracted(r, Extracted::File(bytes)) ==> (r matches Ok(Some(file)) && file@ == bytes),
        is_extracted(r, Extracted::Missing) ==> r matches Ok(None),
        is_extracted(r, Extracted::Failure(e)) ==> (r matches Err(error) && error@ == e),
{
}

/// A run that fails ends the extraction with its error, at whatever stage; one that
/// does not leads on to the next stage, of the same AppImage at the same offset,
/// and nothing that was read before is lost on the way.
pub proof fn law_extraction_steps(
    before: Extraction,
    r: Result<Progress, MetadataError>,
    output: Result<ToolOutput, IoFailure>,
)
    requires
        is_after(before, r, after(before.stage@, output)),
    ensures
        r matches Ok(Progress::Run(next)) ==> next.appimage@ == before.appimage@ && next.app
            == before.app,
        before.stage@ == StageView::Root ==> {
            &&& root_desktop(output) matches Err(e) ==> (r matches Err(error) && error@ == e)
            &&& root_desktop(output) matches Ok(name) ==> (r matches Ok(Progress::Run(next))
                && next.stage@ == (StageView::Desktop {
                name,
                dir_icon: lists_path(output, ".DirIcon"@),
            }))
        },
        before.stage@ matches StageView::Desktop { name, dir_icon } ==> {
            &&& desktop_in(extracted(output, true)) matches Err(e) ==> (r matches Err(error)
                && error@ == e)
            &&& desktop_in(extracted(output, true)) matches Ok(desktop) ==> (r matches Ok(
                Progress::Run(next),
            ) && next.stage@ == (StageView::Hicolor { desktop, dir_icon }))
        },
        before.stage@ matches StageView::Hicolor { desktop, dir_icon } ==> {
            &&& dir_listing(output, "usr/share/icons/hicolor"@) matches Err(e) ==> (r matches Err(
                error,
            ) && error@ == e)
            &&& dir_listing(output, "usr/share/icons/hicolor"@) is Ok ==> r matches Ok(
                Progress::Run(_),
            )
        },
        before.stage@ matches StageView::DirIcon { desktop, icons, dir_icon } ==> {
            &&& extracted(output, dir_icon) matches Extracted::Failure(e) ==> (r matches Err(error)
                && error@ == e)
            &&& extracted(output, dir_icon) matches Extracted::File(png) ==> (r matches Ok(
                Progress::Done(m),
            ) && m@ == (MetadataView { desktop, icons, dir_icon: Some(png) }))
            &&& extracted(output, dir_icon) is Missing ==> (r matches Ok(Progress::Done(m)) && m@
                == (MetadataView { desktop, icons, dir_icon: None }))
        },
{
}

proof fn lemma_theme_parts()
    ensures
        split("usr/share/icons/hicolor"@, '/') == seq!["usr"@, "share"@, "icons"@, "hicolor"@],
{
    reveal_strlit("usr/share/icons/hicolor");
    reveal_strlit("share/icons/hicolor");
    reveal_strlit("icons/hicolor");
    reveal_strlit("usr");
    reveal_strlit("share");
    reveal_strlit("icons");
    reveal_strlit("hicolor");
    let none = Seq::<char>::empty();
    law_split("hicolor"@, '/', none);
    law_split("icons"@, '/', "hicolor"@);
    assert("icons"@ + seq!['/'] + "hicolor"@ =~= "icons/hicolor"@);
    law_split("share"@, '/', "icons/hicolor"@);
    assert("share"@ + seq!['/'] + "icons/hicolor"@ =~= "share/icons/hicolor"@);
    law_split("usr"@, '/', "share/icons/hicolor"@);
    assert("usr"@ + seq!['/'] + "share/icons/hicolor"@ =~= "usr/share/icons/hicolor"@);
    assert(split("usr/share/icons/hicolor"@, '/') =~= seq![
        "usr"@,
        "share"@,
        "icons"@,
        "hicolor"@,
    ]);
}

proof fn lemma_icon_parts(d: Seq<char>, sub: Seq<char>, f: Seq<char>)
    requires
        forall|i: int| 0 <= i < d.len() ==> d[i] != '/',
        forall|i: int| 0 <= i < sub.len() ==> sub[i] != '/',
        forall|i: int| 0 <= i < f.len() ==> f[i] != '/',
    ensures
        split("usr/share/icons/hicolor/"@ + d + seq!['/'] + sub + seq!['/'] + f, '/') == seq![
            "usr"@,
            "share"@,
            "icons"@,
            "hicolor"@,
            d,
            sub,
            f,
        ],
{
    let slash = seq!['/'];
    law_split(f, '/', seq![]);
    let t5 = sub + slash + f;
    law_split(sub, '/', f);
    let t4 = d + slash + t5;
    law_split(d, '/', t5);
    let theme = "usr/share/icons/hicolor"@;
    lemma_theme_parts();
    crate::text::lemma_split_append(theme, '/', t4);
    let path = "usr/share/icons/hicolor/"@ + d + slash + sub + slash + f;
    assert("usr/share/icons/hicolor/"@ =~= theme.push('/')) by {
        reveal_strlit("usr/share/icons/hicolor");
        reveal_strlit("usr/share/icons/hicolor/");
    }
    assert(path =~= theme.push('/') + t4);
    assert(split(path, '/') =~= seq!["usr"@, "share"@, "icons"@, "hicolor"@, d, sub, f]);
}

/// An icon of the theme is a file that ends in `.png` in the `apps` directory of
/// a size: of every size, whether written once or twice, and under every name. It
/// is asked for by its own path.
pub proof fn law_icon_of(
    size: u32,
    more: Seq<char>,
    d: Seq<char>,
    sub: Seq<char>,
    start: Seq<char>,
    f: Seq<char>,
)
    requires
        forall|i: int| 0 <= i < more.len() ==> more[i] != '/',
        forall|i: int| 0 <= i < d.len() ==> d[i] != '/',
        forall|i: int| 0 <= i < sub.len() ==> sub[i] != '/',
        forall|i: int| 0 <= i < start.len() ==> start[i] != '/',
        forall|i: int| 0 <= i < f.len() ==> f[i] != '/',
    ensures
        ({
            let square = decimal(size as nat) + seq!['x'] + more;
            let bare = decimal(size as nat);
            let file = start + ".png"@;
            let path = "usr/share/icons/hicolor/"@ + square + "/apps/"@ + file;
            let other = "usr/share/icons/hicolor/"@ + bare + "/apps/"@ + file;
            &&& icon_of(path) == Some((size, path))
            &&& icon_of(other) == Some((size, other))
        }),
        sub != "apps"@ || !".png"@.is_suffix_of(f) ==> icon_of(
            "usr/share/icons/hicolor/"@ + d + seq!['/'] + sub + seq!['/'] + f,
        ) is None,
        d.len() == 0 || !('0' <= d[0] <= '9') && d[0] != '+' ==> icon_of(
            "usr/share/icons/hicolor/"@ + d + seq!['/'] + sub + seq!['/'] + f,
        ) is None,
{
    reveal_strlit("usr/share/icons/hicolor/");
    reveal_strlit("usr/share/icons/hicolor");
    reveal_strlit("/");
    reveal_strlit("/apps/");
    reveal_strlit("apps");
    reveal_strlit(".png");
    let slash = seq!['/'];
    let bare = decimal(size as nat);
    let square = bare + seq!['x'] + more;
    let file = start + ".png"@;
    law_decimal(size);
    assert forall|i: int| 0 <= i < bare.len() implies bare[i] != '/' && bare[i] != 'x' by {
        assert('0' <= bare[i] <= '9');
    }
    assert forall|i: int| 0 <= i < square.len() implies square[i] != '/' by {
        if i < bare.len() {
            assert(square[i] == bare[i]);
        } else if i > bare.len() {
            assert(square[i] == more[i - bare.len() - 1]);
        }
    }
    assert forall|i: int| 0 <= i < file.len() implies file[i] != '/' by {
        if i < start.len() {
            assert(file[i] == start[i]);
        }
    }
    assert(file.skip(file.len() - ".png"@.len()) =~= ".png"@);
    law_split(bare, 'x', more);
    lemma_icon_parts(square, "apps"@, file);
    let path = "usr/share/icons/hicolor/"@ + square + "/apps/"@ + file;
    assert(path =~= "usr/share/icons/hicolor/"@ + square + slash + "apps"@ + slash + file);
    assert(HICOLOR@ + "/"@ + square + "/apps/"@ + file =~= path);
    assert(icon_of(path) == Some((size, path)));
    lemma_icon_parts(bare, "apps"@, file);
    let other = "usr/share/icons/hicolor/"@ + bare + "/apps/"@ + file;
    assert(other =~= "usr/share/icons/hicolor/"@ + bare + slash + "apps"@ + slash + file);
    assert(HICOLOR@ + "/"@ + bare + "/apps/"@ + file =~= other);
    assert(icon_of(other) == Some((size, other)));
    lemma_icon_parts(d, sub, f);
    if d.len() == 0 || !('0' <= d[0] <= '9') && d[0] != '+' {
        let first = split(d, 'x')[0];
        crate::text::lemma_char_pos(d, 'x');
        assert(first == d.take(crate::text::char_pos(d, 'x') as int));
        crate::laws::text::law_no_number(first);
        if first.len() > 0 {
            assert(first[0] == d[0]);
            assert(!('0' <= first[0] <= '9') && first[0] != '+');
        }
    }
}

proof fn lemma_icons_append(a: Seq<Seq<char>>, b: Seq<Seq<char>>)
    ensures
        icons_of(a + b) == icons_of(a) + icons_of(b),
    decreases b.len(),
{
    if b.len() == 0 {
        assert(a + b =~= a);
        assert(icons_of(a) + icons_of(b) =~= icons_of(a));
    } else {
        lemma_icons_append(a, b.drop_last());
        assert((a + b).drop_last() =~= a + b.drop_last());
        assert((a + b).last() == b.last());
        assert(icons_of(a + b) =~= icons_of(a) + icons_of(b));
    }
}

/// The icons are asked for in the order of the paths, each path for itself.
pub proof fn law_icons_of(a: Seq<Seq<char>>, b: Seq<Seq<char>>, path: Seq<char>)
    ensures
        icons_of(a + b) == icons_of(a) + icons_of(b),
        icon_of(path) matches Some(icon) ==> icons_of(seq![path]) == seq![icon],
        icon_of(path) is None ==> icons_of(seq![path]) == Seq::<(u32, Seq<char>)>::empty(),
{
    lemma_icons_append(a, b);
    reveal_with_fuel(icons_of, 2);
    assert(seq![path].drop_last() =~= seq![]);
    assert(seq![path].last() == path);
    if icon_of(path) is Some {
        assert(icons_of(seq![path]) =~= seq![icon_of(path)->0]);
    }
}

/// Every icon that a listing of the payload names in the theme is asked for, of
/// whatever size, under whatever name and wherever in the listing it stands.
pub proof fn law_listed_icon_is_read(
    x: Seq<char>,
    size: u32,
    more: Seq<char>,
    start: Seq<char>,
    y: Seq<char>,
)
    requires
        whole_lines(x),
        one_line(more),
        one_line(start),
        forall|i: int| 0 <= i < more.len() ==> more[i] != '/',
        forall|i: int| 0 <= i < start.len() ==> start[i] != '/',
    ensures
        ({
            let path = "usr/share/icons/hicolor/"@ + (decimal(size as nat) + seq!['x'] + more)
                + "/apps/"@ + (start + ".png"@);
            let raw = x + ("squashfs-root/"@ + path) + seq!['\n'] + y;
            icons_of(lines(listing(raw, HICOLOR@))).contains((size, path))
        }),
{
    reveal_strlit("usr/share/icons/hicolor/");
    reveal_strlit("usr/share/icons/hicolor");
    reveal_strlit("/apps/");
    reveal_strlit(".png");
    reveal_strlit("squashfs-root/");
    reveal_strlit("./");
    let d = decimal(size as nat) + seq!['x'] + more;
    let f = start + ".png"@;
    let path = "usr/share/icons/hicolor/"@ + d + "/apps/"@ + f;
    let l = "squashfs-root/"@ + path;
    let raw = x + l + seq!['\n'] + y;
    law_decimal(size);
    let none = Seq::<char>::empty();
    law_icon_of(size, more, none, none, start, none);
    assert(path[0] == 'u');
    assert(path.last() == 'g');
    if "squashfs-root/"@.is_prefix_of(path) {
        assert(path.take(14)[0] == 's');
    }
    if "./"@.is_prefix_of(path) {
        assert(path.take(2)[0] == '.');
    }
    let n = "usr/share/icons/hicolor/"@.len();
    let k = decimal(size as nat).len();
    assert forall|i: int| 0 <= i < d.len() implies d[i] != '\n' by {
        if i < k {
            assert(d[i] == decimal(size as nat)[i]);
        } else if i > k {
            assert(d[i] == more[i - k - 1]);
        }
    }
    assert forall|i: int| 0 <= i < path.len() implies path[i] != '\n' by {
        if i < n {
        } else if i < n + d.len() {
            assert(path[i] == d[i - n]);
        } else if i < n + d.len() + 6 {
            assert(path[i] == "/apps/"@[i - n - d.len()]);
        } else if i < n + d.len() + 6 + start.len() {
            assert(path[i] == start[i - n - d.len() - 6]);
        } else {
            assert(path[i] == ".png"@[i - n - d.len() - 6 - start.len()]);
        }
    }
    lemma_middle_line(x, l, y, path);
    let root = HICOLOR@;
    law_listing_lines(raw, root);
    let rest = seq![l] + lines(y);
    law_listing_line(lines(x), rest, path, root, none);
    lemma_listed_append(seq![l], lines(y), root);
    assert((root + seq!['/']).is_prefix_of(path)) by {
        assert(path.take((root + seq!['/']).len() as int) =~= root + seq!['/']);
    }
    let a = listed(lines(x), root);
    let b = listed(lines(y), root);
    assert(listed(lines(raw), root) =~= a + (seq![path] + b));
    lemma_icons_append(a, seq![path] + b);
    lemma_icons_append(seq![path], b);
    law_icons_of(seq![], seq![], path);
    let all = icons_of(lines(listing(raw, root)));
    assert(all[icons_of(a).len() as int] == (size, path));
}

/// Every icon that could be read is kept, with its own size and all its bytes, in
/// the order in which they were asked for; one that is missing is passed over.
pub proof fn law_icons_read(
    requests: Seq<(u32, Seq<char>)>,
    outputs: Seq<Result<ToolOutput, IoFailure>>,
)
    requires
        outputs.len() >= requests.len(),
    ensures
        (forall|i: int|
            0 <= i < requests.len() ==> ((#[trigger] outputs[i]) matches Ok(o) && o.success)) ==> {
            &&& icons_read(requests, outputs).len() == requests.len()
            &&& forall|i: int|
                0 <= i < requests.len() ==> #[trigger] icons_read(requests, outputs)[i] == (
                IconView { size: requests[i].0, png: outputs[i]->Ok_0.stdout@ })
        },
        requests.len() > 0 && (outputs[0] matches Ok(o) && !o.success && o.stdout@.len() == 0)
            ==> icons_read(requests, outputs) == icons_read(
            requests.drop_first(),
            outputs.drop_first(),
        ),
    decreases requests.len(),
{
    if requests.len() > 0 {
        let qs = requests.drop_first();
        let os = outputs.drop_first();
        law_icons_read(qs, os);
        if forall|i: int|
            0 <= i < requests.len() ==> ((#[trigger] outputs[i]) matches Ok(o) && o.success) {
            assert forall|i: int| 0 <= i < qs.len() implies ((#[trigger] os[i]) matches Ok(o)
                && o.success) by {
                assert(os[i] == outputs[i + 1]);
            }
            assert(outputs[0]->Ok_0.success);
            let first = IconView { size: requests[0].0, png: outputs[0]->Ok_0.stdout@ };
            assert(icons_read(requests, outputs) =~= seq![first] + icons_read(qs, os));
            assert forall|i: int| 0 <= i < requests.len() implies #[trigger] icons_read(
                requests,
                outputs,
            )[i] == (IconView { size: requests[i].0, png: outputs[i]->Ok_0.stdout@ }) by {
                if i > 0 {
                    assert(icons_read(requests, outputs)[i] == icons_read(qs, os)[i - 1]);
                    assert(os[i - 1] == outputs[i]);
                    assert(qs[i - 1] == requests[i]);
                }
            }
        }
        if outputs[0] matches Ok(o) && !o.success && o.stdout@.len() == 0 {
            assert(icons_read(requests, outputs) =~= icons_read(qs, os));
        }
    }
}

/// The fallback icon is what the tool wrote, all of it.
pub proof fn law_dir_icon_read(o: ToolOutput, listed: bool)
    ensures
        o.success || o.stdout@.len() > 0 ==> dir_icon_read(Ok(o), listed) == Some(o.stdout@),
        !o.success && o.stdout@.len() == 0 ==> dir_icon_read(Ok(o), listed) is None,
{
}

/// Each run of the tool is on the payload of this AppImage, at its offset, and for
/// the file that its stage is for.
pub proof fn law_stage_args(
    offset: u64,
    appimage: Seq<char>,
    name: Seq<char>,
    desktop: DesktopView,
    icons: Seq<IconView>,
    request: (u32, Seq<char>),
    rest: Seq<(u32, Seq<char>)>,
    dir_icon: bool,
)
    ensures
        stage_args(offset, appimage, StageView::Root) == seq![
            "-o"@,
            decimal(offset as nat),
            "-ls"@,
            appimage,
        ],
        stage_args(offset, appimage, StageView::Desktop { name, dir_icon }) == seq![
            "-o"@,
            decimal(offset as nat),
            "-cat"@,
            appimage,
            name,
        ],
        stage_args(offset, appimage, StageView::Hicolor { desktop, dir_icon }) == seq![
            "-o"@,
            decimal(offset as nat),
            "-ls"@,
            appimage,
            "usr/share/icons/hicolor"@,
        ],
        stage_args(
            offset,
            appimage,
            StageView::Icon { desktop, icons, request, rest, dir_icon },
        ) == seq!["-o"@, decimal(offset as nat), "-cat"@, appimage, request.1],
        stage_args(offset, appimage, StageView::DirIcon { desktop, icons, dir_icon }) == seq![
            "-o"@,
            decimal(offset as nat),
            "-cat"@,
            appimage,
            ".DirIcon"@,
        ],
{
    assert(stage_args(offset, appimage, StageView::Hicolor { desktop, dir_icon }) =~= seq![
        "-o"@,
        decimal(offset as nat),
        "-ls"@,
        appimage,
        "usr/share/icons/hicolor"@,
    ]);
}

// ---------------------------------------------------------------------------
// The install name
// ---------------------------------------------------------------------------
/// A name is cleaned character by character, in its order: small letters, digits,
/// `-` and `_` stay, capital letters become small ones, and all else is dropped.
pub proof fn law_cleaned_name(a: Seq<char>, b: Seq<char>, c: char)
    ensures
        cleaned_name(a + b) == cleaned_name(a) + cleaned_name(b),
        'a' <= c <= 'z' || '0' <= c <= '9' || c == '-' || c == '_' ==> cleaned_name(seq![c])
            == seq![c],
        'A' <= c <= 'Z' ==> cleaned_name(seq![c]) == seq![(c as u32 + 32) as char],
        !('a' <= c <= 'z' || 'A' <= c <= 'Z' || '0' <= c <= '9' || c == '-' || c == '_')
            ==> cleaned_name(seq![c]) == Seq::<char>::empty(),
    decreases b.len(),
{
    reveal_with_fuel(cleaned_name, 2);
    assert(seq![c].drop_last() =~= seq![]);
    assert(seq![c].last() == c);
    assert(Seq::<char>::empty().push(lower(c)) =~= seq![lower(c)]);
    if b.len() == 0 {
        assert(a + b =~= a);
        assert(cleaned_name(a) + cleaned_name(b) =~= cleaned_name(a));
    } else {
        law_cleaned_name(a, b.drop_last(), c);
        assert((a + b).drop_last() =~= a + b.drop_last());
        assert((a + b).last() == b.last());
        assert(cleaned_name(a + b) =~= cleaned_name(a) + cleaned_name(b));
    }
}

/// An application is installed under its own name, cleaned; under that of its
/// file where nothing of its name is left or it has none; and under a fixed name
/// where there is no file name either.
pub proof fn law_install_name(keys: Seq<Pair>, file: Seq<char>)
    ensures
        lookup(keys, "Name"@) matches Some(name) ==> {
            &&& cleaned_name(name).len() > 0 ==> app_install_name(keys, file) == cleaned_name(name)
            &&& cleaned_name(name).len() == 0 ==> app_install_name(keys, file) == app_install_name(
                Seq::<Pair>::empty(),
                file,
            )
        },
        lookup(keys, "Name"@) is None ==> {
            &&& file_name(file) matches Some(f) ==> app_install_name(keys, file) == stem(f)
            &&& file_name(file) is None ==> app_install_name(keys, file) == "appimage-app"@
        },
{
    assert(lookup(Seq::<Pair>::empty(), "Name"@) is None);
}

} // verus!
