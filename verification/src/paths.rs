//! Unix paths as texts.
//!
//! A path is taken apart at its slashes. Repeated slashes, a slash at the end
//! and a `.` that is not at the start say nothing, so two texts can write the
//! same path.
use vstd::prelude::*;

use crate::text::{char_pos, copy, from_index, has_char, is_text, lemma_char_pos, lemma_split_append,
    lemma_split_no_char, same_chars, slices, split, split_at, to_chars, to_text, up_to};

verus! {

/// The pieces that name something: neither empty nor `.`.
pub open spec fn named_pieces(ps: Seq<Seq<char>>) -> Seq<Seq<char>>
    decreases ps.len(),
{
    if ps.len() == 0 {
        seq![]
    } else if ps.last().len() == 0 || ps.last() == "."@ {
        named_pieces(ps.drop_last())
    } else {
        named_pieces(ps.drop_last()).push(ps.last())
    }
}

/// The components of a path. The root is the component `/`; a `.` is one only
/// at the start of a relative path.
pub open spec fn components(path: Seq<char>) -> Seq<Seq<char>> {
    if absolute(path) {
        seq!["/"@] + named_pieces(split(path, '/'))
    } else if split(path, '/')[0] == "."@ {
        seq!["."@] + named_pieces(split(path, '/'))
    } else {
        named_pieces(split(path, '/'))
    }
}

/// Does the path start at the root?
pub open spec fn absolute(path: Seq<char>) -> bool {
    path.len() > 0 && path[0] == '/'
}

/// Do both texts write the same path?
pub open spec fn same_path(a: Seq<char>, b: Seq<char>) -> bool {
    components(a) == components(b)
}

/// Is `base` the path itself or one of the directories on the way to it?
pub open spec fn below(path: Seq<char>, base: Seq<char>) -> bool {
    components(base).is_prefix_of(components(path))
}

/// Is the path below `base`, without a step back up on the way from there?
pub open spec fn inside(path: Seq<char>, base: Seq<char>) -> bool {
    &&& below(path, base)
    &&& forall|i: int|
        components(base).len() <= i < components(path).len() ==> #[trigger] components(path)[i]
            != ".."@
}

/// The last component, where it is a name.
pub open spec fn file_name(path: Seq<char>) -> Option<Seq<char>> {
    let cs = components(path);
    if cs.len() > 0 && cs.last() != "/"@ && cs.last() != "."@ && cs.last() != ".."@ {
        Some(cs.last())
    } else {
        None
    }
}

/// Where the last `c` stands in `s`, counted from one; zero where there is none.
pub open spec fn last_pos(s: Seq<char>, c: char) -> nat
    decreases s.len(),
{
    if s.len() == 0 {
        0
    } else if s.last() == c {
        s.len()
    } else {
        last_pos(s.drop_last(), c)
    }
}

/// A file name up to its last dot. A dot at its start separates nothing.
pub open spec fn stem(name: Seq<char>) -> Seq<char> {
    if last_pos(name, '.') <= 1 {
        name
    } else {
        name.take(last_pos(name, '.') - 1)
    }
}

/// What follows the last dot of a file name. A dot at its start separates nothing.
pub open spec fn extension(name: Seq<char>) -> Option<Seq<char>> {
    if last_pos(name, '.') <= 1 {
        None
    } else {
        Some(name.skip(last_pos(name, '.') as int))
    }
}

/// The path `tail`, taken from `base`.
pub open spec fn join_path(base: Seq<char>, tail: Seq<char>) -> Seq<char> {
    if absolute(tail) {
        tail
    } else if base.len() == 0 || base.last() == '/' {
        base + tail
    } else {
        base.push('/') + tail
    }
}

/// What a vector of character vectors holds.
pub open spec fn char_vecs(v: Seq<Vec<char>>) -> Seq<Seq<char>> {
    Seq::new(v.len(), |i: int| v[i]@)
}

/// Does the path start at the root?
pub fn is_absolute(path: &str) -> (r: bool)
    ensures
        r == absolute(path@),
{
    let chars: Vec<char> = to_chars(path);
    chars.len() > 0 && chars[0] == '/'
}

fn push_copy(out: &mut Vec<Vec<char>>, piece: &[char])
    ensures
        char_vecs(final(out)@) == char_vecs(old(out)@).push(piece@),
{
    let copied: Vec<char> = vstd::slice::slice_to_vec(piece);
    let ghost before = out@;
    out.push(copied);
    assert(char_vecs(out@) =~= char_vecs(before).push(piece@));
}

/// The components of a path.
pub fn path_components(path: &str) -> (r: Vec<Vec<char>>)
    ensures
        char_vecs(r@) == components(path@),
{
    let chars: Vec<char> = to_chars(path);
    let pieces: Vec<&[char]> = split_at(chars.as_slice(), '/');
    let ghost ps = split(path@, '/');
    let mut out: Vec<Vec<char>> = Vec::new();
    assert(slices(pieces@)[0] == pieces@[0]@);
    if chars.len() > 0 && chars[0] == '/' {
        push_copy(&mut out, to_chars("/").as_slice());
    } else if is_text(pieces[0], ".") {
        push_copy(&mut out, to_chars(".").as_slice());
    }
    let ghost head = char_vecs(out@);
    let mut i: usize = 0;
    proof {
        assert(char_vecs(out@) =~= head + named_pieces(ps.take(0)));
    }
    while i < pieces.len()
        invariant
            i <= pieces.len(),
            slices(pieces@) == ps,
            char_vecs(out@) == head + named_pieces(ps.take(i as int)),
        decreases pieces.len() - i,
    {
        let piece: &[char] = pieces[i];
        let ghost before = char_vecs(out@);
        assert(piece@ == slices(pieces@)[i as int]);
        if piece.len() > 0 && !is_text(piece, ".") {
            push_copy(&mut out, piece);
        }
        i = i + 1;
        proof {
            assert(ps.take(i as int).drop_last() =~= ps.take(i - 1));
            assert(char_vecs(out@) =~= head + named_pieces(ps.take(i as int)));
        }
    }
    proof {
        assert(ps.take(i as int) =~= ps);
        assert(head + named_pieces(ps) =~= components(path@));
    }
    out
}

/// Do both texts write the same path?
pub fn is_same_path(a: &str, b: &str) -> (r: bool)
    ensures
        r == same_path(a@, b@),
{
    let x: Vec<Vec<char>> = path_components(a);
    let y: Vec<Vec<char>> = path_components(b);
    assert(char_vecs(x@).len() == x.len() && char_vecs(y@).len() == y.len());
    x.len() == y.len() && has_prefix(&x, &y)
}

fn has_prefix(x: &Vec<Vec<char>>, y: &Vec<Vec<char>>) -> (r: bool)
    requires
        y.len() <= x.len(),
    ensures
        r == char_vecs(y@).is_prefix_of(char_vecs(x@)),
        x.len() == y.len() ==> r == (char_vecs(y@) == char_vecs(x@)),
{
    let mut i: usize = 0;
    while i < y.len()
        invariant
            i <= y.len() <= x.len(),
            forall|j: int| 0 <= j < i ==> x@[j]@ == y@[j]@,
        decreases y.len() - i,
    {
        if !same_chars(x[i].as_slice(), y[i].as_slice()) {
            proof {
                assert(char_vecs(x@)[i as int] != char_vecs(y@)[i as int]);
                assert(char_vecs(x@).subrange(0, y@.len() as int)[i as int] != char_vecs(
                    y@,
                )[i as int]);
            }
            return false;
        }
        i = i + 1;
    }
    proof {
        assert(char_vecs(y@) =~= char_vecs(x@).subrange(0, y@.len() as int));
        if x.len() == y.len() {
            assert(char_vecs(x@) =~= char_vecs(y@));
        }
    }
    true
}

/// Is the path below `base`, without a step back up on the way from there?
pub fn is_inside(path: &str, base: &str) -> (r: bool)
    ensures
        r == inside(path@, base@),
{
    let x: Vec<Vec<char>> = path_components(path);
    let y: Vec<Vec<char>> = path_components(base);
    assert(char_vecs(x@).len() == x.len() && char_vecs(y@).len() == y.len());
    if y.len() > x.len() || !has_prefix(&x, &y) {
        return false;
    }
    let mut i: usize = y.len();
    while i < x.len()
        invariant
            y.len() <= i <= x.len(),
            char_vecs(x@) == components(path@),
            char_vecs(y@) == components(base@),
            char_vecs(y@).len() == y.len(),
            forall|j: int| y.len() <= j < i ==> #[trigger] components(path@)[j] != ".."@,
        decreases x.len() - i,
    {
        assert(components(path@)[i as int] == x@[i as int]@);
        if is_text(x[i].as_slice(), "..") {
            return false;
        }
        i += 1;
    }
    true
}

/// What an optional character vector holds.
pub open spec fn opt_chars(o: Option<Vec<char>>) -> Option<Seq<char>> {
    match o {
        Some(s) => Some(s@),
        None => None,
    }
}

/// The last component, where it is a name.
pub fn path_file_name(path: &str) -> (r: Option<Vec<char>>)
    ensures
        opt_chars(r) == file_name(path@),
{
    let mut cs: Vec<Vec<char>> = path_components(path);
    let ghost all = char_vecs(cs@);
    match cs.pop() {
        Some(last) => {
            assert(all.last() == last@);
            if is_text(last.as_slice(), "/") || is_text(last.as_slice(), ".") || is_text(
                last.as_slice(),
                "..",
            ) {
                None
            } else {
                Some(last)
            }
        },
        None => None,
    }
}

fn find_last(s: &[char], c: char) -> (r: usize)
    ensures
        r == last_pos(s@, c),
        r <= s.len(),
{
    let mut n: usize = s.len();
    proof {
        assert(s@.take(n as int) =~= s@);
    }
    while n > 0 && s[n - 1] != c
        invariant
            n <= s.len(),
            last_pos(s@, c) == last_pos(s@.take(n as int), c),
        decreases n,
    {
        assert(s@.take(n as int).drop_last() =~= s@.take(n - 1));
        n = n - 1;
    }
    n
}

/// A file name up to its last dot.
pub fn name_stem(name: &[char]) -> (r: String)
    ensures
        r@ == stem(name@),
{
    let dot: usize = find_last(name, '.');
    if dot <= 1 {
        to_text(name)
    } else {
        to_text(up_to(name, dot - 1))
    }
}

/// Is this the extension of the path's file name?
pub fn has_extension(path: &str, wanted: &str) -> (r: bool)
    ensures
        r == (file_name(path@) is Some && extension(file_name(path@)->0) == Some(wanted@)),
{
    match path_file_name(path) {
        Some(name) => {
            let dot: usize = find_last(name.as_slice(), '.');
            dot > 1 && is_text(from_index(name.as_slice(), dot), wanted)
        },
        None => false,
    }
}

/// The path `tail`, taken from `base`.
pub fn joined_path(base: &str, tail: &str) -> (r: String)
    ensures
        r@ == join_path(base@, tail@),
{
    if is_absolute(tail) {
        return copy(tail);
    }
    let chars: Vec<char> = to_chars(base);
    let mut out: String = copy(base);
    if chars.len() > 0 && chars[chars.len() - 1] != '/' {
        out.push('/');
    }
    out.append(tail);
    out
}


pub(crate) proof fn lemma_named_append(a: Seq<Seq<char>>, b: Seq<Seq<char>>)
    ensures
        named_pieces(a + b) == named_pieces(a) + named_pieces(b),
    decreases b.len(),
{
    if b.len() == 0 {
        assert(a + b =~= a);
        assert(named_pieces(a) + named_pieces(b) =~= named_pieces(a));
    } else {
        lemma_named_append(a, b.drop_last());
        assert((a + b).drop_last() =~= a + b.drop_last());
        assert((a + b).last() == b.last());
        assert(named_pieces(a + b) =~= named_pieces(a) + named_pieces(b));
    }
}

pub(crate) proof fn lemma_named_nothing(none: Seq<char>)
    requires
        none.len() == 0,
    ensures
        named_pieces(seq![none]) == Seq::<Seq<char>>::empty(),
{
    let ps = seq![none];
    assert(ps.last().len() == 0);
    assert(ps.drop_last() =~= seq![]);
    assert(named_pieces(ps.drop_last()) == Seq::<Seq<char>>::empty());
}

proof fn lemma_split_some(s: Seq<char>, c: char)
    ensures
        split(s, c).len() > 0,
{
    lemma_char_pos(s, c);
}

/// The components of a joined path are those of both parts.
pub proof fn lemma_join_components(base: Seq<char>, tail: Seq<char>)
    requires
        !absolute(tail),
        base.len() > 0,
    ensures
        components(join_path(base, tail)) == components(base) + named_pieces(split(tail, '/')),
{
    let path = join_path(base, tail);
    let dir = if base.last() == '/' {
        base.drop_last()
    } else {
        base
    };
    assert(path =~= dir.push('/') + tail);
    lemma_split_append(dir, '/', tail);
    lemma_named_append(split(dir, '/'), split(tail, '/'));
    lemma_split_some(dir, '/');
    assert(split(path, '/')[0] == split(dir, '/')[0]);
    if base.last() == '/' {
        let none = Seq::<char>::empty();
        assert(base =~= dir.push('/') + none);
        lemma_split_append(dir, '/', none);
        lemma_char_pos(none, '/');
        assert(split(none, '/') =~= seq![none]);
        lemma_named_append(split(dir, '/'), seq![none]);
        lemma_named_nothing(none);
        assert(split(base, '/')[0] == split(dir, '/')[0]);
        assert(named_pieces(split(base, '/')) =~= named_pieces(split(dir, '/')));
    }
    assert(path[0] == base[0]);
    assert(components(path) =~= components(base) + named_pieces(split(tail, '/')));
}

/// What is joined to a directory is below it.
pub proof fn law_joined_path_is_below(base: Seq<char>, tail: Seq<char>)
    requires
        !absolute(tail),
    ensures
        below(join_path(base, tail), base),
{
    if base.len() == 0 {
        lemma_char_pos(base, '/');
        assert(split(base, '/') =~= seq![base]);
        lemma_named_nothing(base);
        reveal_strlit(".");
        assert(split(base, '/')[0].len() == 0);
    } else {
        lemma_join_components(base, tail);
    }
}

proof fn lemma_one_component(name: Seq<char>)
    requires
        !has_char(name, '/'),
        name.len() > 2,
    ensures
        split(name, '/') == seq![name],
        named_pieces(split(name, '/')) == seq![name],
{
    lemma_char_pos(name, '/');
    assert(char_pos(name, '/') == name.len()) by {
        if char_pos(name, '/') < name.len() {
            assert(name[char_pos(name, '/') as int] == '/');
        }
    }
    reveal_strlit(".");
    let ps = seq![name];
    assert(split(name, '/') =~= ps);
    assert(ps.drop_last() =~= seq![]);
    assert(named_pieces(ps.drop_last()) == Seq::<Seq<char>>::empty());
    assert(named_pieces(ps) =~= ps);
}

/// A file that is put into a directory is inside it. Names of one or two
/// characters are left out: they may be dots.
pub proof fn law_joined_name_is_inside(base: Seq<char>, name: Seq<char>)
    requires
        !has_char(name, '/'),
        name.len() > 2,
    ensures
        components(join_path(base, name)) == components(base).push(name),
        inside(join_path(base, name), base),
{
    reveal_strlit("..");
    reveal_strlit(".");
    lemma_one_component(name);
    assert(!absolute(name)) by {
        if absolute(name) {
            assert(name[0] == '/');
        }
    }
    if base.len() == 0 {
        lemma_char_pos(base, '/');
        assert(split(base, '/') =~= seq![base]);
        lemma_named_nothing(base);
        assert(split(base, '/')[0].len() == 0);
        assert(join_path(base, name) =~= name);
        assert(components(base) =~= seq![]);
        assert(components(name) =~= seq![name]);
    } else {
        lemma_join_components(base, name);
        assert(components(base) + seq![name] =~= components(base).push(name));
    }
    let path = join_path(base, name);
    assert(components(base).is_prefix_of(components(path)));
    assert forall|i: int|
        components(base).len() <= i < components(path).len() implies #[trigger] components(path)[i]
        != ".."@ by {
        assert(components(path)[i] == name);
    }
}

/// What is inside a directory that is inside another is inside that one.
pub proof fn law_inside_is_transitive(path: Seq<char>, dir: Seq<char>, base: Seq<char>)
    requires
        inside(path, dir),
        inside(dir, base),
    ensures
        inside(path, base),
{
    assert forall|i: int|
        components(base).len() <= i < components(path).len() implies #[trigger] components(path)[i]
        != ".."@ by {
        if i < components(dir).len() {
            assert(components(path)[i] == components(dir)[i]);
        }
    }
}

/// Joining in one step or in two leads to the same place.
pub proof fn law_join_in_steps(base: Seq<char>, first: Seq<char>, second: Seq<char>)
    requires
        base.len() > 0,
        !absolute(first),
        !absolute(second),
        first.len() > 0,
    ensures
        same_path(
            join_path(base, first.push('/') + second),
            join_path(join_path(base, first), second),
        ),
{
    let both = first.push('/') + second;
    assert(both[0] == first[0]);
    lemma_join_components(base, both);
    lemma_join_components(base, first);
    lemma_join_components(join_path(base, first), second);
    lemma_split_append(first, '/', second);
    lemma_named_append(split(first, '/'), split(second, '/'));
    assert(components(base) + (named_pieces(split(first, '/')) + named_pieces(split(second, '/')))
        =~= (components(base) + named_pieces(split(first, '/'))) + named_pieces(
        split(second, '/'),
    ));
}

proof fn lemma_named_no_char(ps: Seq<Seq<char>>, c: char)
    requires
        forall|i: int| 0 <= i < ps.len() ==> !has_char(#[trigger] ps[i], c),
    ensures
        forall|i: int|
            0 <= i < named_pieces(ps).len() ==> !has_char(#[trigger] named_pieces(ps)[i], c),
    decreases ps.len(),
{
    if ps.len() > 0 {
        let rest = ps.drop_last();
        assert forall|i: int| 0 <= i < rest.len() implies !has_char(#[trigger] rest[i], c) by {
            assert(rest[i] == ps[i]);
        }
        lemma_named_no_char(rest, c);
        assert(!has_char(ps[ps.len() - 1], c));
        assert forall|i: int| 0 <= i < named_pieces(ps).len() implies !has_char(
            #[trigger] named_pieces(ps)[i],
            c,
        ) by {
            if i < named_pieces(rest).len() {
                assert(named_pieces(ps)[i] == named_pieces(rest)[i]);
            }
        }
    }
}

/// The stem of a file name is the start of it.
pub proof fn lemma_stem(name: Seq<char>)
    ensures
        stem(name).is_prefix_of(name),
{
    lemma_last_pos(name, '.');
    assert(stem(name).is_prefix_of(name));
}

proof fn lemma_last_pos(s: Seq<char>, c: char)
    ensures
        last_pos(s, c) <= s.len(),
    decreases s.len(),
{
    if s.len() > 0 {
        lemma_last_pos(s.drop_last(), c);
    }
}

/// A file name is one component.
pub proof fn law_file_name_is_one_component(path: Seq<char>)
    ensures
        file_name(path) is Some ==> !has_char(file_name(path)->0, '/'),
{
    let ps = split(path, '/');
    lemma_split_no_char(path, '/');
    lemma_named_no_char(ps, '/');
    let named = named_pieces(ps);
    let cs = components(path);
    if file_name(path) is Some {
        if named.len() > 0 {
            assert(cs.last() == named[named.len() - 1]);
        }
    }
}

} // verus!
