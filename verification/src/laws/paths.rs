//! How paths are taken apart and put together.
use vstd::prelude::*;

use crate::laws::text::law_split;
use crate::paths::{below, components, extension, file_name, inside, join_path, last_pos,
    lemma_join_components, lemma_named_append, lemma_named_nothing, named_pieces, same_path, stem};
use crate::text::split;

verus! {

/// A name that a directory can hold: not empty, without a slash, and not one of
/// the two that stand for directories.
pub open spec fn proper_name(name: Seq<char>) -> bool {
    &&& name.len() > 0
    &&& forall|i: int| 0 <= i < name.len() ==> name[i] != '/'
    &&& name != seq!['.']
    &&& name != seq!['.', '.']
}

/// A path that is joined to a directory stands behind it and a slash, of which
/// there is only one; a path that starts at the root stays as it is.
pub proof fn law_join_path(dir: Seq<char>, tail: Seq<char>)
    ensures
        tail.len() > 0 && tail[0] == '/' ==> join_path(dir, tail) == tail,
        !(tail.len() > 0 && tail[0] == '/') ==> {
            &&& join_path(dir.push('/'), tail) == dir + seq!['/'] + tail
            &&& dir.len() > 0 && dir.last() != '/' ==> join_path(dir, tail) == dir + seq!['/']
                + tail
            &&& dir.len() == 0 ==> join_path(dir, tail) == tail
        },
{
    assert(dir.push('/') + tail =~= dir + seq!['/'] + tail);
    if dir.len() == 0 {
        assert(dir + tail =~= tail);
    }
}

proof fn lemma_pieces_of_name(name: Seq<char>)
    requires
        name.len() > 0,
        forall|i: int| 0 <= i < name.len() ==> name[i] != '/',
    ensures
        split(name, '/') == seq![name],
        name != seq!['.'] ==> named_pieces(split(name, '/')) == seq![name],
        name == seq!['.'] ==> named_pieces(split(name, '/')) == Seq::<Seq<char>>::empty(),
{
    law_split(name, '/', seq![]);
    reveal_strlit(".");
    assert("."@ =~= seq!['.']);
    let ps = seq![name];
    assert(ps.drop_last() =~= seq![]);
    assert(named_pieces(ps.drop_last()) == Seq::<Seq<char>>::empty());
    assert(ps.last() == name);
    if name != seq!['.'] {
        assert(named_pieces(ps) =~= ps);
    }
}

/// The components of a path are the names between its slashes, behind the root
/// where it starts there. A slash too many or a dot on the way says nothing; two
/// dots are a component like any other.
pub proof fn law_components(dir: Seq<char>, name: Seq<char>)
    requires
        name.len() > 0,
        forall|i: int| 0 <= i < name.len() ==> name[i] != '/',
    ensures
        components(Seq::<char>::empty()) == Seq::<Seq<char>>::empty(),
        components(seq!['/']) == seq![seq!['/']],
        components(name) == seq![name],
        dir.len() > 0 ==> {
            &&& components(dir + seq!['/']) == components(dir)
            &&& name == seq!['.'] ==> components(dir + seq!['/'] + name) == components(dir)
            &&& name != seq!['.'] ==> components(dir + seq!['/'] + name) == components(dir).push(
                name,
            )
        },
{
    reveal_strlit(".");
    reveal_strlit("/");
    assert("."@ =~= seq!['.']);
    assert("/"@ =~= seq!['/']);
    let none = Seq::<char>::empty();
    law_split(none, '/', none);
    lemma_named_nothing(none);
    assert(components(none) =~= seq![]);
    let root = seq!['/'];
    assert(root =~= none + seq!['/'] + none);
    lemma_named_append(seq![none], seq![none]);
    assert(named_pieces(split(root, '/')) =~= seq![]);
    assert(components(root) =~= seq![seq!['/']]);
    lemma_pieces_of_name(name);
    assert(components(name) =~= seq![name]);
    if dir.len() > 0 {
        law_split(none, '/', none);
        lemma_append_components(dir, none);
        lemma_append_components(dir, name);
        assert(dir + seq!['/'] + none =~= dir + seq!['/']);
        assert(components(dir) + Seq::<Seq<char>>::empty() =~= components(dir));
        assert(components(dir) + seq![name] =~= components(dir).push(name));
    }
}

proof fn lemma_append_components(dir: Seq<char>, tail: Seq<char>)
    requires
        dir.len() > 0,
        !(tail.len() > 0 && tail[0] == '/'),
    ensures
        components(dir + seq!['/'] + tail) == components(dir) + named_pieces(split(tail, '/')),
{
    // A slash at the end of a directory says nothing, so one more does not either.
    let slashed = dir.push('/');
    assert(join_path(slashed, tail) =~= dir + seq!['/'] + tail);
    lemma_join_components(slashed, tail);
    let none = Seq::<char>::empty();
    crate::text::lemma_split_append(dir, '/', none);
    law_split(none, '/', none);
    lemma_named_append(split(dir, '/'), seq![none]);
    lemma_named_nothing(none);
    assert(slashed =~= slashed + none);
    assert(named_pieces(split(slashed, '/')) =~= named_pieces(split(dir, '/')));
    crate::text::lemma_char_pos(dir, '/');
    assert(split(slashed, '/')[0] == split(dir, '/')[0]);
    assert(slashed[0] == dir[0]);
    assert(components(slashed) =~= components(dir));
}

/// The file name of a path is what stands behind its last slash; a slash at the
/// end says nothing. The directory above has no file name, and neither has the
/// root.
pub proof fn law_file_name(dir: Seq<char>, name: Seq<char>)
    ensures
        proper_name(name) ==> {
            &&& file_name(name) == Some(name)
            &&& dir.len() > 0 ==> file_name(dir + seq!['/'] + name) == Some(name)
            &&& file_name(seq!['/'] + name) == Some(name)
            &&& file_name(name + seq!['/']) == Some(name)
        },
        file_name(Seq::<char>::empty()) is None,
        file_name(seq!['/']) is None,
        file_name(seq!['.']) is None,
        file_name(seq!['.', '.']) is None,
        dir.len() > 0 ==> file_name(dir + seq!['/'] + seq!['.', '.']) is None,
{
    reveal_strlit(".");
    reveal_strlit("/");
    reveal_strlit("..");
    assert("."@ =~= seq!['.']);
    assert("/"@ =~= seq!['/']);
    assert(".."@ =~= seq!['.', '.']);
    law_components(dir, seq!['.']);
    law_components(dir, seq!['.', '.']);
    if proper_name(name) {
        law_components(dir, name);
        law_components(seq!['/'], name);
        law_components(name, name);
        let rooted = seq!['/'] + name;
        // The root and a name: one slash between them.
        assert(join_path(seq!['/'], name) =~= rooted);
        lemma_join_components(seq!['/'], name);
        lemma_pieces_of_name(name);
        assert(components(rooted) =~= seq![seq!['/'], name]);
        assert(name != seq!['/']) by {
            assert(name[0] != '/');
        }
    }
}

/// The last dot of a file name parts its stem from its extension; a dot at the
/// very start parts nothing.
pub proof fn law_stem(a: Seq<char>, b: Seq<char>)
    requires
        forall|i: int| 0 <= i < b.len() ==> b[i] != '.',
    ensures
        a.len() > 0 ==> stem(a + seq!['.'] + b) == a,
        a.len() > 0 ==> extension(a + seq!['.'] + b) == Some(b),
        stem(b) == b,
        extension(b) is None,
        stem(seq!['.'] + b) == seq!['.'] + b,
        extension(seq!['.'] + b) is None,
{
    let s = a + seq!['.'] + b;
    lemma_last_pos_is(a + seq!['.'], b);
    assert((a + seq!['.']).last() == '.');
    assert(last_pos(a + seq!['.'], '.') == a.len() + 1);
    assert(s.take(a.len() as int) =~= a);
    assert(s.skip(a.len() + 1int) =~= b);
    let none = Seq::<char>::empty();
    lemma_last_pos_is(none, b);
    assert(none + b =~= b);
    assert(last_pos(none, '.') == 0);
    lemma_last_pos_is(seq!['.'], b);
    assert(seq!['.'].last() == '.');
    assert(last_pos(seq!['.'], '.') == 1);
}

proof fn lemma_last_pos_is(a: Seq<char>, b: Seq<char>)
    requires
        forall|i: int| 0 <= i < b.len() ==> b[i] != '.',
    ensures
        last_pos(a + b, '.') == last_pos(a, '.'),
    decreases b.len(),
{
    if b.len() == 0 {
        assert(a + b =~= a);
    } else {
        lemma_last_pos_is(a, b.drop_last());
        assert((a + b).drop_last() =~= a + b.drop_last());
        assert((a + b).last() == b.last());
    }
}

/// A path that steps back up anywhere behind a directory is not inside it, and
/// neither is what merely starts with the same characters.
pub proof fn law_not_inside(dir: Seq<char>, name: Seq<char>, more: Seq<char>)
    requires
        dir.len() > 0,
        proper_name(name),
    ensures
        !inside(dir + seq!['/', '.', '.'], dir),
        !inside(dir + seq!['/', '.', '.', '/'] + name, dir),
        !inside(dir + seq!['/'] + name + seq!['/', '.', '.', '/'] + name, dir),
        proper_name(name + more) && more.len() > 0 ==> !inside(
            dir + seq!['/'] + (name + more),
            dir + seq!['/'] + name,
        ),
{
    reveal_strlit("..");
    assert(".."@ =~= seq!['.', '.']);
    let up = seq!['.', '.'];
    let base = components(dir);
    law_components(dir, up);
    let d1 = dir + seq!['/'] + up;
    assert(d1 =~= dir + seq!['/', '.', '.']);
    assert(components(d1)[base.len() as int] == ".."@);
    law_components(d1, name);
    let d2 = d1 + seq!['/'] + name;
    assert(d2 =~= dir + seq!['/', '.', '.', '/'] + name);
    assert(components(d2)[base.len() as int] == ".."@);
    law_components(dir, name);
    let d3 = dir + seq!['/'] + name;
    law_components(d3, up);
    let d4 = d3 + seq!['/'] + up;
    law_components(d4, name);
    let d5 = d4 + seq!['/'] + name;
    assert(d5 =~= dir + seq!['/'] + name + seq!['/', '.', '.', '/'] + name);
    assert(components(d5)[base.len() + 1int] == ".."@);
    if proper_name(name + more) && more.len() > 0 {
        law_components(dir, name + more);
        let p = dir + seq!['/'] + (name + more);
        assert(components(p)[base.len() as int] == name + more);
        assert(components(d3)[base.len() as int] == name);
        assert(name.len() != (name + more).len());
        if below(p, d3) {
            assert(components(p).take(components(d3).len() as int)[base.len() as int] == components(
                d3,
            )[base.len() as int]);
        }
    }
}

/// What is put into a directory is inside it, at any depth.
pub proof fn law_inside(dir: Seq<char>, name: Seq<char>, inner: Seq<char>)
    requires
        dir.len() > 0,
        proper_name(name),
        proper_name(inner),
    ensures
        inside(dir + seq!['/'] + name, dir),
        inside(dir + seq!['/'] + name + seq!['/'] + inner, dir),
        !same_path(dir + seq!['/'] + name, dir),
        same_path(dir + seq!['/'], dir),
        same_path(dir + seq!['/', '/'] + name, dir + seq!['/'] + name),
        same_path(dir + seq!['/', '.', '/'] + name, dir + seq!['/'] + name),
{
    reveal_strlit("..");
    assert(".."@ =~= seq!['.', '.']);
    let d1 = dir + seq!['/'] + name;
    law_components(dir, name);
    law_components(d1, inner);
    let d2 = d1 + seq!['/'] + inner;
    assert(components(dir).is_prefix_of(components(d1)));
    assert(components(dir).is_prefix_of(components(d2)));
    assert(components(d1).len() != components(dir).len());
    law_components(dir + seq!['/'], name);
    assert(dir + seq!['/'] + seq!['/'] + name =~= dir + seq!['/', '/'] + name);
    law_components(dir, seq!['.']);
    law_components(dir + seq!['/'] + seq!['.'], name);
    assert(dir + seq!['/'] + seq!['.'] + seq!['/'] + name =~= dir + seq!['/', '.', '/'] + name);
}

} // verus!
