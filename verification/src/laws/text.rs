//! What the operations on texts do, character by character.
use vstd::prelude::*;

use crate::text::{all_digits, decimal, digit, digits_value, join, lemma_char_pos_is,
    lemma_lines_append, lemma_one_line, lemma_space_pos_is, lemma_split_append, lemma_trim_end_is,
    lemma_trim_id, lemma_trim_start_is, lines, lowered, padded, split, split_once, strip_all,
    text_less, trim, trim_end, trim_start, u32_value, unsigned, whitespace, words};

verus! {

/// Nothing but white space?
pub open spec fn blank(s: Seq<char>) -> bool {
    forall|i: int| 0 <= i < s.len() ==> whitespace(#[trigger] s[i])
}

/// Does the text start and end with something other than white space?
pub open spec fn tight(s: Seq<char>) -> bool {
    s.len() > 0 && !whitespace(s[0]) && !whitespace(s.last())
}

/// A text is read line by line: up to its first line feed, without a carriage
/// return before it, and then the rest. The line feed of the last line may be
/// missing.
pub proof fn law_lines(l: Seq<char>, rest: Seq<char>)
    requires
        forall|i: int| 0 <= i < l.len() ==> l[i] != '\n',
    ensures
        lines(Seq::<char>::empty()) == Seq::<Seq<char>>::empty(),
        l.len() > 0 ==> lines(l) == seq![l],
        lines(l + seq!['\n'] + rest) == seq![
            if l.len() > 0 && l.last() == '\r' {
                l.drop_last()
            } else {
                l
            },
        ] + lines(rest),
{
    lemma_one_line(l);
    lemma_lines_append(l.push('\n'), rest);
    assert(l + seq!['\n'] + rest =~= l.push('\n') + rest);
    if l.len() > 0 {
        lemma_char_pos_is(l, '\n', l.len() as int);
    }
}

/// A text is split at each separator: what stands before the first one, and then
/// the pieces of what stands behind it.
pub proof fn law_split(first: Seq<char>, c: char, rest: Seq<char>)
    requires
        forall|i: int| 0 <= i < first.len() ==> first[i] != c,
    ensures
        split(first, c) == seq![first],
        split(first + seq![c] + rest, c) == seq![first] + split(rest, c),
        split_once(first, c) is None,
        split_once(first + seq![c] + rest, c) == Some((first, rest)),
{
    lemma_char_pos_is(first, c, first.len() as int);
    lemma_split_append(first, c, rest);
    let s = first + seq![c] + rest;
    assert(s =~= first.push(c) + rest);
    assert(split(first, c) =~= seq![first]);
    assert forall|i: int| 0 <= i < first.len() implies s[i] != c by {
        assert(s[i] == first[i]);
    }
    lemma_char_pos_is(s, c, first.len() as int);
    assert(s.take(first.len() as int) =~= first);
    assert(s.skip(first.len() + 1int) =~= rest);
}

/// Trimming takes away all the white space at the ends of a text, and nothing
/// else.
pub proof fn law_trim(before: Seq<char>, s: Seq<char>, behind: Seq<char>)
    requires
        blank(before),
        blank(behind),
        tight(s),
    ensures
        trim(before + s + behind) == s,
        trim_end(before + s + behind) == before + s,
        trim_start(before + s + behind) == s + behind,
        trim(before).len() == 0,
        trim_end(before).len() == 0,
        trim_start(before).len() == 0,
{
    let all = before + s + behind;
    let n = before.len() as int;
    let m = n + s.len();
    assert forall|i: int| 0 <= i < n implies whitespace(all[i]) by {
        assert(whitespace(before[i]));
    }
    assert(all[n] == s[0]);
    lemma_trim_start_is(all, n);
    assert(all.skip(n) =~= s + behind);
    assert forall|i: int| m <= i < all.len() implies whitespace(all[i]) by {
        assert(whitespace(behind[i - m]));
    }
    assert(all[m - 1] == s.last());
    lemma_trim_end_is(all, m);
    assert(all.take(m) =~= before + s);
    let front = before + s;
    assert forall|i: int| 0 <= i < n implies whitespace(front[i]) by {
        assert(whitespace(before[i]));
    }
    assert(front[n] == s[0]);
    lemma_trim_start_is(front, n);
    assert(front.skip(n) =~= s);
    lemma_trim_end_is(before, 0);
    lemma_trim_start_is(before, n);
    lemma_trim_id(before.take(0));
    assert(trim_start(before.take(0)).len() == 0);
}

/// A prefix that is to be stripped is taken away each time it is there, and a
/// text without it stays as it is.
pub proof fn law_strip_all(p: Seq<char>, s: Seq<char>)
    requires
        p.len() > 0,
    ensures
        strip_all(p + s, p) == strip_all(s, p),
        !p.is_prefix_of(s) ==> strip_all(s, p) == s,
        !p.is_prefix_of(strip_all(s, p)),
        strip_all(s, p).is_suffix_of(s),
    decreases s.len(),
{
    assert((p + s).take(p.len() as int) =~= p);
    assert((p + s).skip(p.len() as int) =~= s);
    if p.is_prefix_of(s) {
        let rest = s.skip(p.len() as int);
        law_strip_all(p, rest);
        let t = strip_all(s, p);
        assert(s.skip(s.len() - t.len()) =~= rest.skip(rest.len() - t.len()));
    }
}

/// Joined texts stand one behind the other with the separator between them.
pub proof fn law_join(parts: Seq<Seq<char>>, last: Seq<char>, sep: Seq<char>)
    ensures
        join(Seq::<Seq<char>>::empty(), sep) == Seq::<char>::empty(),
        join(seq![last], sep) == last,
        parts.len() > 0 ==> join(parts.push(last), sep) == join(parts, sep) + sep + last,
    decreases parts.len(),
{
    assert(join(seq![last], sep) == last);
    if parts.len() == 1 {
        let two = parts.push(last);
        assert(two.drop_first() =~= seq![last]);
        assert(join(two, sep) == two[0] + sep + join(seq![last], sep));
    } else if parts.len() > 1 {
        let rest = parts.drop_first();
        law_join(rest, last, sep);
        assert(parts.push(last).drop_first() =~= rest.push(last));
        assert(join(parts.push(last), sep) =~= join(parts, sep) + sep + last);
    }
}

/// Letters from `A` to `Z` become small ones; every other character stays, and so
/// does the length.
pub proof fn law_lowered(s: Seq<char>, i: int)
    requires
        0 <= i < s.len(),
    ensures
        lowered(s).len() == s.len(),
        'A' <= s[i] <= 'Z' ==> lowered(s)[i] as u32 == s[i] as u32 + 32,
        !('A' <= s[i] <= 'Z') ==> lowered(s)[i] == s[i],
        lowered(lowered(s))[i] == lowered(s)[i],
{
}

/// The order of texts is decided by the first character in which they differ; a
/// text comes before what it is the start of.
pub proof fn law_text_order(p: Seq<char>, x: char, y: char, a: Seq<char>, b: Seq<char>)
    ensures
        x < y ==> text_less(p + seq![x] + a, p + seq![y] + b),
        x < y ==> !text_less(p + seq![y] + b, p + seq![x] + a),
        text_less(p, p + seq![x] + a),
        !text_less(p + seq![x] + a, p),
        !text_less(p, p),
    decreases p.len(),
{
    let m = p + seq![x] + a;
    let n = p + seq![y] + b;
    if p.len() > 0 {
        let q = p.drop_first();
        law_text_order(q, x, y, a, b);
        assert(m.drop_first() =~= q + seq![x] + a);
        assert(n.drop_first() =~= q + seq![y] + b);
        assert(m[0] == p[0] && n[0] == p[0]);
    } else {
        assert(m[0] == x && n[0] == y);
    }
}

proof fn lemma_decimal(n: nat)
    ensures
        decimal(n).len() > 0,
        all_digits(decimal(n)),
        digits_value(decimal(n)) == n,
        n > 0 ==> decimal(n)[0] != '0',
        n < 10 ==> decimal(n).len() == 1,
    decreases n,
{
    let k = n % 10;
    assert('0' as u32 + k <= '9' as u32);
    assert(digit(k) as u32 == '0' as u32 + k);
    assert('0' <= digit(k) <= '9');
    reveal_with_fuel(digits_value, 2);
    if n < 10 {
        assert(decimal(n) =~= seq![digit(n)]);
        assert(seq![digit(n)].drop_last() =~= seq![]);
    } else {
        let front = decimal(n / 10);
        lemma_decimal(n / 10);
        assert(decimal(n).drop_last() =~= front);
        assert forall|i: int| 0 <= i < decimal(n).len() implies '0' <= #[trigger] decimal(n)[i]
            <= '9' by {
            if i < front.len() {
                assert(decimal(n)[i] == front[i]);
            }
        }
        assert(decimal(n)[0] == front[0]);
    }
}

/// A number that was written is read again as it was, also with a plus sign or
/// zeros before it; it is written in digits, without a zero before them.
pub proof fn law_decimal(n: u32)
    ensures
        u32_value(decimal(n as nat)) == Some(n),
        u32_value(seq!['+'] + decimal(n as nat)) == Some(n),
        u32_value(seq!['0'] + decimal(n as nat)) == Some(n),
        decimal(n as nat).len() > 0,
        forall|i: int|
            0 <= i < decimal(n as nat).len() ==> '0' <= #[trigger] decimal(n as nat)[i] <= '9',
        n > 0 ==> decimal(n as nat)[0] != '0',
{
    let d = decimal(n as nat);
    lemma_decimal(n as nat);
    assert('0' <= d[0] <= '9');
    assert(unsigned(d) == d);
    assert(unsigned(seq!['+'] + d) =~= d);
    let z = seq!['0'] + d;
    assert(unsigned(z) == z);
    lemma_leading_zero(d);
    assert forall|i: int| 0 <= i < z.len() implies '0' <= #[trigger] z[i] <= '9' by {
        if i > 0 {
            assert(z[i] == d[i - 1]);
        }
    }
}

/// A number is written digit by digit, the most significant one first.
pub proof fn law_digits(n: nat, d: nat)
    requires
        d < 10,
    ensures
        decimal(d) == seq![('0' as u32 + d) as char],
        n > 0 ==> decimal(10 * n + d) == decimal(n).push(('0' as u32 + d) as char),
{
    assert(decimal(d) =~= seq![digit(d)]);
    if n > 0 {
        assert((10 * n + d) / 10 == n && (10 * n + d) % 10 == d);
    }
}

proof fn lemma_leading_zero(d: Seq<char>)
    ensures
        digits_value(seq!['0'] + d) == digits_value(d),
    decreases d.len(),
{
    reveal_with_fuel(digits_value, 2);
    let z = seq!['0'] + d;
    if d.len() == 0 {
        assert(z =~= seq!['0']);
        assert(z.drop_last() =~= seq![]);
    } else {
        lemma_leading_zero(d.drop_last());
        assert(z.drop_last() =~= seq!['0'] + d.drop_last());
    }
}

/// What holds anything but digits, apart from a plus sign before them, is no
/// number, and neither is nothing.
pub proof fn law_no_number(s: Seq<char>)
    ensures
        s.len() == 0 ==> u32_value(s) is None,
        s == seq!['+'] ==> u32_value(s) is None,
        forall|i: int|
            0 <= i < s.len() && !('0' <= #[trigger] s[i] <= '9') && (i > 0 || s[i] != '+')
                ==> u32_value(s) is None,
        u32_value(s) is Some ==> digits_value(unsigned(s)) == u32_value(s)->0,
{
    assert forall|i: int|
        0 <= i < s.len() && !('0' <= #[trigger] s[i] <= '9') && (i > 0 || s[i]
            != '+') implies u32_value(s) is None by {
        let u = unsigned(s);
        if s[0] == '+' {
            assert(u[i - 1] == s[i]);
        } else {
            assert(u[i] == s[i]);
        }
    }
}

/// Padding puts blanks behind a text that is too short, and cuts nothing off.
pub proof fn law_padded(s: Seq<char>, width: nat)
    ensures
        padded(s, width).len() == (if s.len() < width {
            width
        } else {
            s.len()
        }),
        padded(s, width).take(s.len() as int) == s,
        forall|i: int| s.len() <= i < padded(s, width).len() ==> padded(s, width)[i] == ' ',
{
    assert(padded(s, width).take(s.len() as int) =~= s);
}

/// A text is taken apart into words at its white space, however much of it there
/// is.
pub proof fn law_words(before: Seq<char>, word: Seq<char>, gap: Seq<char>, rest: Seq<char>)
    requires
        blank(before),
        blank(gap),
        gap.len() > 0,
        word.len() > 0,
        forall|i: int| 0 <= i < word.len() ==> !whitespace(#[trigger] word[i]),
    ensures
        words(before) == Seq::<Seq<char>>::empty(),
        words(before + word) == seq![word],
        words(before + word + gap + rest) == seq![word] + words(rest),
{
    let none = Seq::<char>::empty();
    lemma_words_skip_blank(before, none);
    assert(before + none =~= before);
    lemma_words_skip_blank(before, word);
    lemma_first_word(word, none);
    assert(word + none =~= word);
    assert(seq![word] + words(none) =~= seq![word]);
    let tail = word + gap + rest;
    lemma_words_skip_blank(before, tail);
    assert(before + word + gap + rest =~= before + tail);
    let g = gap + rest;
    assert(tail =~= word + g);
    assert(whitespace(gap[0]));
    assert(g[0] == gap[0]);
    lemma_first_word(word, g);
    lemma_words_skip_blank(gap, rest);
}

proof fn lemma_words_skip_blank(b: Seq<char>, rest: Seq<char>)
    requires
        blank(b),
    ensures
        words(b + rest) == words(rest),
    decreases b.len(),
{
    if b.len() == 0 {
        assert(b + rest =~= rest);
    } else {
        let c = b.drop_first();
        assert forall|i: int| 0 <= i < c.len() implies whitespace(#[trigger] c[i]) by {
            assert(whitespace(b[i + 1]));
        }
        lemma_words_skip_blank(c, rest);
        assert(whitespace(b[0]));
        assert((b + rest)[0] == b[0]);
        assert((b + rest).drop_first() =~= c + rest);
    }
}

proof fn lemma_first_word(word: Seq<char>, rest: Seq<char>)
    requires
        word.len() > 0,
        forall|i: int| 0 <= i < word.len() ==> !whitespace(#[trigger] word[i]),
        rest.len() > 0 ==> whitespace(rest[0]),
    ensures
        words(word + rest) == seq![word] + words(rest),
{
    let s = word + rest;
    assert forall|i: int| 0 <= i < word.len() implies !whitespace(s[i]) by {
        assert(s[i] == word[i]);
    }
    if rest.len() > 0 {
        assert(s[word.len() as int] == rest[0]);
    }
    lemma_space_pos_is(s, word.len() as int);
    assert(s.take(word.len() as int) =~= word);
    assert(s.skip(word.len() as int) =~= rest);
    assert(!whitespace(s[0])) by {
        assert(s[0] == word[0]);
    }
}

} // verus!
