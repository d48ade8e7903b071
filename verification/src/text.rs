//! Text as sequences of characters: the line, field and word operations that
//! the file formats of this crate are defined with.
use vstd::prelude::*;
use vstd::slice::slice_subrange;
use vstd::utf8::{decode_utf8, valid_utf8};

verus! {

/// `String::push` appends `c` to the end of the string and changes nothing else.
pub assume_specification[ String::push ](s: &mut String, c: char)
    ensures
        final(s)@ == old(s)@.push(c),
;

/// The text that `String::from_utf8_lossy` makes of `bytes`.
pub uninterp spec fn utf8_lossy(bytes: Seq<u8>) -> Seq<char>;

/// `String::from_utf8_lossy` makes a text of any bytes: of valid UTF-8 the text
/// that it encodes. The places where invalid bytes are replaced are left to it,
/// as a function of the bytes alone.
#[verifier::external_body]
pub(crate) fn lossy(bytes: &[u8]) -> (r: String)
    ensures
        r@ == utf8_lossy(bytes@),
        valid_utf8(bytes@) ==> r@ == decode_utf8(bytes@),
{
    String::from_utf8_lossy(bytes).into_owned()
}

// ---------------------------------------------------------------------------
// Characters
// ---------------------------------------------------------------------------
/// The Unicode `White_Space` property.
pub open spec fn whitespace(c: char) -> bool {
    ||| '\u{9}' <= c <= '\u{d}'
    ||| c == ' '
    ||| c == '\u{85}'
    ||| c == '\u{a0}'
    ||| c == '\u{1680}'
    ||| '\u{2000}' <= c <= '\u{200a}'
    ||| c == '\u{2028}'
    ||| c == '\u{2029}'
    ||| c == '\u{202f}'
    ||| c == '\u{205f}'
    ||| c == '\u{3000}'
}

/// Is `c` white space?
pub fn is_whitespace(c: char) -> (r: bool)
    ensures
        r == whitespace(c),
{
    ('\u{9}' <= c && c <= '\u{d}') || c == ' ' || c == '\u{85}' || c == '\u{a0}' || c == '\u{1680}'
        || ('\u{2000}' <= c && c <= '\u{200a}') || c == '\u{2028}' || c == '\u{2029}'
        || c == '\u{202f}' || c == '\u{205f}' || c == '\u{3000}'
}

/// The lower-case form of an ASCII letter; every other character is itself.
pub open spec fn lower(c: char) -> char {
    if 'A' <= c <= 'Z' {
        (c as u32 + 32) as char
    } else {
        c
    }
}

/// An ASCII letter or digit.
pub open spec fn alphanumeric(c: char) -> bool {
    'a' <= c <= 'z' || 'A' <= c <= 'Z' || '0' <= c <= '9'
}

/// ASCII lower case of one character.
pub fn to_lower(c: char) -> (r: char)
    ensures
        r == lower(c),
{
    if 'A' <= c && c <= 'Z' {
        (c as u8 + 32u8) as char
    } else {
        c
    }
}

// ---------------------------------------------------------------------------
// Sequences of characters
// ---------------------------------------------------------------------------
/// The text with every ASCII letter in lower case.
pub open spec fn lowered(s: Seq<char>) -> Seq<char> {
    s.map_values(|c: char| lower(c))
}

/// Where `c` first occurs in `s`; the length of `s` where it does not.
pub open spec fn char_pos(s: Seq<char>, c: char) -> nat
    decreases s.len(),
{
    if s.len() == 0 {
        0
    } else if s[0] == c {
        0
    } else {
        1 + char_pos(s.drop_first(), c)
    }
}

/// Where the first white space stands in `s`; the length of `s` where there is none.
pub open spec fn space_pos(s: Seq<char>) -> nat
    decreases s.len(),
{
    if s.len() == 0 {
        0
    } else if whitespace(s[0]) {
        0
    } else {
        1 + space_pos(s.drop_first())
    }
}

/// Does `c` occur in `s`?
pub open spec fn has_char(s: Seq<char>, c: char) -> bool {
    exists|i: int| 0 <= i < s.len() && s[i] == c
}

/// The pieces of `s` between the occurrences of `c`.
pub open spec fn split(s: Seq<char>, c: char) -> Seq<Seq<char>>
    decreases s.len(),
{
    if char_pos(s, c) < s.len() {
        seq![s.take(char_pos(s, c) as int)] + split(s.skip(char_pos(s, c) + 1int), c)
    } else {
        seq![s]
    }
}

/// A line without the carriage return that may precede its line feed.
pub open spec fn without_cr(s: Seq<char>) -> Seq<char> {
    if s.len() > 0 && s.last() == '\r' {
        s.drop_last()
    } else {
        s
    }
}

/// The lines of a text. A line ends with a line feed, or a carriage return and a
/// line feed, neither of which belongs to it; the last line may go without.
pub open spec fn lines(s: Seq<char>) -> Seq<Seq<char>>
    decreases s.len(),
{
    if s.len() == 0 {
        seq![]
    } else if char_pos(s, '\n') < s.len() {
        seq![without_cr(s.take(char_pos(s, '\n') as int))] + lines(s.skip(char_pos(s, '\n') + 1int))
    } else {
        seq![s]
    }
}

/// `s` without its leading white space.
pub open spec fn trim_start(s: Seq<char>) -> Seq<char>
    decreases s.len(),
{
    if s.len() > 0 && whitespace(s[0]) {
        trim_start(s.drop_first())
    } else {
        s
    }
}

/// `s` without its trailing white space.
pub open spec fn trim_end(s: Seq<char>) -> Seq<char>
    decreases s.len(),
{
    if s.len() > 0 && whitespace(s.last()) {
        trim_end(s.drop_last())
    } else {
        s
    }
}

/// `s` without the white space around it.
pub open spec fn trim(s: Seq<char>) -> Seq<char> {
    trim_start(trim_end(s))
}

/// What stands before and after the first `c`, if there is one.
pub open spec fn split_once(s: Seq<char>, c: char) -> Option<(Seq<char>, Seq<char>)> {
    if char_pos(s, c) < s.len() {
        Some((s.take(char_pos(s, c) as int), s.skip(char_pos(s, c) + 1int)))
    } else {
        None
    }
}

/// `s` without the prefix `p`, taken away as often as it is there.
pub open spec fn strip_all(s: Seq<char>, p: Seq<char>) -> Seq<char>
    decreases s.len(),
{
    if p.len() > 0 && p.is_prefix_of(s) {
        strip_all(s.skip(p.len() as int), p)
    } else {
        s
    }
}

/// The parts one after the other with `sep` between them.
pub open spec fn join(parts: Seq<Seq<char>>, sep: Seq<char>) -> Seq<char>
    decreases parts.len(),
{
    if parts.len() == 0 {
        seq![]
    } else if parts.len() == 1 {
        parts[0]
    } else {
        parts[0] + sep + join(parts.drop_first(), sep)
    }
}

/// The words of a text: its longest runs without white space.
pub open spec fn words(s: Seq<char>) -> Seq<Seq<char>>
    decreases s.len(),
{
    if s.len() == 0 {
        seq![]
    } else if whitespace(s[0]) {
        words(s.drop_first())
    } else {
        proof {
            lemma_space_pos(s);
        }
        seq![s.take(space_pos(s) as int)] + words(s.skip(space_pos(s) as int))
    }
}

/// The decimal digit `d`.
pub open spec fn digit(d: nat) -> char {
    ('0' as u32 + d) as char
}

/// `n` in decimal, without leading zeros.
pub open spec fn decimal(n: nat) -> Seq<char>
    decreases n,
{
    if n < 10 {
        seq![digit(n)]
    } else {
        decimal(n / 10).push(digit(n % 10))
    }
}

/// The number that a run of decimal digits stands for.
pub open spec fn digits_value(s: Seq<char>) -> nat
    decreases s.len(),
{
    if s.len() == 0 {
        0
    } else {
        digits_value(s.drop_last()) * 10 + (s.last() as u32 - '0' as u32) as nat
    }
}

/// All decimal digits?
pub open spec fn all_digits(s: Seq<char>) -> bool {
    forall|i: int| 0 <= i < s.len() ==> '0' <= #[trigger] s[i] <= '9'
}

/// The digits of a number: the text without the plus sign that may lead it.
pub open spec fn unsigned(s: Seq<char>) -> Seq<char> {
    if s.len() > 0 && s[0] == '+' {
        s.drop_first()
    } else {
        s
    }
}

/// The number that `s` writes in decimal, if it is one that 32 bits hold.
pub open spec fn u32_value(s: Seq<char>) -> Option<u32> {
    if unsigned(s).len() > 0 && all_digits(unsigned(s)) && digits_value(unsigned(s)) <= u32::MAX {
        Some(digits_value(unsigned(s)) as u32)
    } else {
        None
    }
}

/// Does `a` come before `b`, comparing character by character?
pub open spec fn text_less(a: Seq<char>, b: Seq<char>) -> bool
    decreases a.len(),
{
    if b.len() == 0 {
        false
    } else if a.len() == 0 {
        true
    } else {
        a[0] < b[0] || (a[0] == b[0] && text_less(a.drop_first(), b.drop_first()))
    }
}

/// `n` spaces.
pub open spec fn spaces(n: nat) -> Seq<char> {
    Seq::new(n, |i: int| ' ')
}

/// `s` with spaces behind it up to `width` characters.
pub open spec fn padded(s: Seq<char>, width: nat) -> Seq<char> {
    if s.len() < width {
        s + spaces((width - s.len()) as nat)
    } else {
        s
    }
}

/// What an optional string holds.
pub open spec fn opt_string(o: Option<String>) -> Option<Seq<char>> {
    match o {
        Some(s) => Some(s@),
        None => None,
    }
}

/// What a vector of strings holds.
pub open spec fn texts(v: Seq<String>) -> Seq<Seq<char>> {
    Seq::new(v.len(), |i: int| v[i]@)
}

/// What a vector of character slices holds.
pub open spec fn slices(v: Seq<&[char]>) -> Seq<Seq<char>> {
    Seq::new(v.len(), |i: int| v[i]@)
}


// ---------------------------------------------------------------------------
// Facts about positions
// ---------------------------------------------------------------------------
/// The position of `c` is the first index that holds it.
pub proof fn lemma_char_pos(s: Seq<char>, c: char)
    ensures
        char_pos(s, c) <= s.len(),
        char_pos(s, c) < s.len() ==> s[char_pos(s, c) as int] == c,
        forall|i: int| 0 <= i < char_pos(s, c) ==> s[i] != c,
    decreases s.len(),
{
    if s.len() > 0 && s[0] != c {
        lemma_char_pos(s.drop_first(), c);
        assert forall|i: int| 0 <= i < char_pos(s, c) implies s[i] != c by {
            if i > 0 {
                assert(s[i] == s.drop_first()[i - 1]);
            }
        }
    }
}

/// An index that holds `c` with none before it is the position of `c`.
pub proof fn lemma_char_pos_is(s: Seq<char>, c: char, k: int)
    requires
        0 <= k <= s.len(),
        forall|i: int| 0 <= i < k ==> s[i] != c,
        k < s.len() ==> s[k] == c,
    ensures
        char_pos(s, c) == k,
{
    lemma_char_pos(s, c);
    if char_pos(s, c) < k {
        assert(s[char_pos(s, c) as int] != c);
    }
}

/// The position of the first white space is the first index that holds some.
pub proof fn lemma_space_pos(s: Seq<char>)
    ensures
        space_pos(s) <= s.len(),
        space_pos(s) < s.len() ==> whitespace(s[space_pos(s) as int]),
        forall|i: int| 0 <= i < space_pos(s) ==> !whitespace(s[i]),
    decreases s.len(),
{
    if s.len() > 0 && !whitespace(s[0]) {
        lemma_space_pos(s.drop_first());
        assert forall|i: int| 0 <= i < space_pos(s) implies !whitespace(s[i]) by {
            if i > 0 {
                assert(s[i] == s.drop_first()[i - 1]);
            }
        }
    }
}

/// An index that holds white space with none before it is where the first stands.
pub proof fn lemma_space_pos_is(s: Seq<char>, k: int)
    requires
        0 <= k <= s.len(),
        forall|i: int| 0 <= i < k ==> !whitespace(s[i]),
        k < s.len() ==> whitespace(s[k]),
    ensures
        space_pos(s) == k,
{
    lemma_space_pos(s);
    if space_pos(s) < k {
        assert(!whitespace(s[space_pos(s) as int]));
    }
}

/// Trimming at the start drops exactly a run of white space.
pub proof fn lemma_trim_start_is(s: Seq<char>, k: int)
    requires
        0 <= k <= s.len(),
        forall|i: int| 0 <= i < k ==> whitespace(s[i]),
        k < s.len() ==> !whitespace(s[k]),
    ensures
        trim_start(s) == s.skip(k),
    decreases s.len(),
{
    if k > 0 {
        lemma_trim_start_is(s.drop_first(), k - 1);
        assert(s.drop_first().skip(k - 1) =~= s.skip(k));
    } else {
        assert(s.skip(0) =~= s);
    }
}

/// Trimming at the end drops exactly a run of white space.
pub proof fn lemma_trim_end_is(s: Seq<char>, k: int)
    requires
        0 <= k <= s.len(),
        forall|i: int| k <= i < s.len() ==> whitespace(s[i]),
        k > 0 ==> !whitespace(s[k - 1]),
    ensures
        trim_end(s) == s.take(k),
    decreases s.len(),
{
    if k < s.len() {
        lemma_trim_end_is(s.drop_last(), k);
        assert(s.drop_last().take(k) =~= s.take(k));
    } else {
        assert(s.take(k) =~= s);
    }
}

/// Trimming what needs no trimming changes nothing.
pub proof fn lemma_trim_id(s: Seq<char>)
    ensures
        s.len() == 0 || !whitespace(s.last()) ==> trim_end(s) == s,
        s.len() == 0 || !whitespace(s[0]) ==> trim_start(s) == s,
{
}

/// Trimming at the start leaves a suffix that starts with no white space.
pub proof fn lemma_trim_start(s: Seq<char>)
    ensures
        trim_start(s).len() <= s.len(),
        trim_start(s) == s.skip(s.len() - trim_start(s).len()),
        trim_start(s).len() > 0 ==> !whitespace(trim_start(s)[0]),
        forall|i: int| 0 <= i < s.len() - trim_start(s).len() ==> whitespace(s[i]),
    decreases s.len(),
{
    if s.len() > 0 && whitespace(s[0]) {
        lemma_trim_start(s.drop_first());
        let t = trim_start(s);
        assert(s.drop_first().skip(s.drop_first().len() - t.len()) =~= s.skip(s.len() - t.len()));
        assert forall|i: int| 0 <= i < s.len() - t.len() implies whitespace(s[i]) by {
            if i > 0 {
                assert(s[i] == s.drop_first()[i - 1]);
            }
        }
    } else {
        assert(s.skip(0) =~= s);
    }
}

/// Trimming at the end leaves a prefix that ends with no white space.
pub proof fn lemma_trim_end(s: Seq<char>)
    ensures
        trim_end(s).len() <= s.len(),
        trim_end(s) == s.take(trim_end(s).len() as int),
        trim_end(s).len() > 0 ==> !whitespace(trim_end(s).last()),
        forall|i: int| trim_end(s).len() <= i < s.len() ==> whitespace(s[i]),
    decreases s.len(),
{
    if s.len() > 0 && whitespace(s.last()) {
        lemma_trim_end(s.drop_last());
        let t = trim_end(s);
        assert(s.drop_last().take(t.len() as int) =~= s.take(t.len() as int));
        assert forall|i: int| t.len() <= i < s.len() implies whitespace(s[i]) by {
            if i < s.len() - 1 {
                assert(s[i] == s.drop_last()[i]);
            }
        }
    } else {
        assert(s.take(s.len() as int) =~= s);
    }
}

/// A trimmed text stands in the text and has no white space at either end.
pub proof fn lemma_trim(s: Seq<char>)
    ensures
        trim(s).len() > 0 ==> !whitespace(trim(s)[0]) && !whitespace(trim(s).last()),
        trim(s).len() <= trim_end(s).len(),
        trim(s) == s.subrange(trim_end(s).len() - trim(s).len(), trim_end(s).len() as int),
        trim(trim(s)) == trim(s),
{
    lemma_trim_end(s);
    lemma_trim_start(trim_end(s));
    let t = trim(s);
    assert(t =~= s.subrange(trim_end(s).len() - t.len(), trim_end(s).len() as int));
    lemma_trim_id(t);
}

// ---------------------------------------------------------------------------
// Facts about the order of texts
// ---------------------------------------------------------------------------
/// Of two texts one comes first, or they are the same; never both.
pub proof fn lemma_text_less_total(a: Seq<char>, b: Seq<char>)
    ensures
        text_less(a, b) || a == b || text_less(b, a),
        text_less(a, b) ==> a != b && !text_less(b, a),
    decreases a.len(),
{
    if a.len() > 0 && b.len() > 0 {
        lemma_text_less_total(a.drop_first(), b.drop_first());
        if a[0] == b[0] && a.drop_first() == b.drop_first() {
            assert(a =~= seq![a[0]] + a.drop_first());
            assert(b =~= seq![b[0]] + b.drop_first());
        }
    } else if a.len() == 0 && b.len() == 0 {
        assert(a =~= b);
    }
}

/// The order of texts is transitive.
pub proof fn lemma_text_less_trans(a: Seq<char>, b: Seq<char>, c: Seq<char>)
    requires
        text_less(a, b),
        text_less(b, c),
    ensures
        text_less(a, c),
    decreases a.len(),
{
    if a.len() > 0 && a[0] == b[0] && b[0] == c[0] {
        lemma_text_less_trans(a.drop_first(), b.drop_first(), c.drop_first());
    }
}

// ---------------------------------------------------------------------------
// Facts about lines
// ---------------------------------------------------------------------------
/// Is every line of the text ended?
pub open spec fn ended(s: Seq<char>) -> bool {
    s.len() == 0 || s.last() == '\n'
}

/// The lines of a text that starts with ended lines are those and the others.
pub proof fn lemma_lines_append(x: Seq<char>, y: Seq<char>)
    requires
        ended(x),
    ensures
        lines(x + y) == lines(x) + lines(y),
    decreases x.len(),
{
    if x.len() == 0 {
        assert(x + y =~= y);
        assert(lines(x) + lines(y) =~= lines(y));
    } else {
        lemma_char_pos(x, '\n');
        let p = char_pos(x, '\n') as int;
        if p == x.len() {
            assert(x[x.len() - 1] == '\n');
        }
        lemma_char_pos_is(x + y, '\n', p);
        let rest = x.skip(p + 1);
        lemma_lines_append(rest, y);
        assert((x + y).take(p) =~= x.take(p));
        assert((x + y).skip(p + 1) =~= rest + y);
        assert(lines(x + y) =~= lines(x) + lines(y));
    }
}

/// A run of characters without line feed, and a line feed, are one line.
pub proof fn lemma_one_line(s: Seq<char>)
    requires
        !has_char(s, '\n'),
    ensures
        lines(s.push('\n')) == seq![without_cr(s)],
        ended(s.push('\n')),
{
    let t = s.push('\n');
    assert forall|i: int| 0 <= i < s.len() implies t[i] != '\n' by {
        assert(t[i] == s[i]);
    }
    lemma_char_pos_is(t, '\n', s.len() as int);
    assert(t.take(s.len() as int) =~= s);
    assert(t.skip(s.len() + 1int).len() == 0);
    assert(lines(t.skip(s.len() + 1int)) =~= seq![]);
    assert(lines(t) =~= seq![without_cr(s)]);
}

/// No line holds a line feed.
pub proof fn lemma_lines_no_feed(s: Seq<char>)
    ensures
        forall|i: int| 0 <= i < lines(s).len() ==> !has_char(#[trigger] lines(s)[i], '\n'),
    decreases s.len(),
{
    if s.len() > 0 {
        lemma_char_pos(s, '\n');
        let p = char_pos(s, '\n') as int;
        if p < s.len() {
            let rest = s.skip(p + 1);
            lemma_lines_no_feed(rest);
            assert forall|i: int| 0 <= i < lines(s).len() implies !has_char(
                #[trigger] lines(s)[i],
                '\n',
            ) by {
                if i == 0 {
                    let l = without_cr(s.take(p));
                    assert(lines(s)[0] == l);
                    assert forall|j: int| 0 <= j < l.len() implies l[j] != '\n' by {
                        assert(l[j] == s[j]);
                    }
                } else {
                    assert(lines(s)[i] == lines(rest)[i - 1]);
                }
            }
        } else {
            assert(lines(s)[0] == s);
        }
    }
}

pub proof fn lemma_split_append(x: Seq<char>, c: char, y: Seq<char>)
    ensures
        split(x.push(c) + y, c) == split(x, c) + split(y, c),
    decreases x.len(),
{
    let s = x.push(c) + y;
    lemma_char_pos(x, c);
    let k = char_pos(x, c) as int;
    if k < x.len() {
        lemma_char_pos_is(s, c, k);
        let rest = x.skip(k + 1);
        lemma_split_append(rest, c, y);
        assert(s.take(k) =~= x.take(k));
        assert(s.skip(k + 1) =~= rest.push(c) + y);
        assert(split(s, c) =~= split(x, c) + split(y, c));
    } else {
        lemma_char_pos_is(s, c, x.len() as int);
        assert(s.take(x.len() as int) =~= x);
        assert(s.skip(x.len() + 1int) =~= y);
    }
}

pub proof fn lemma_split_no_char(s: Seq<char>, c: char)
    ensures
        forall|i: int| 0 <= i < split(s, c).len() ==> !has_char(#[trigger] split(s, c)[i], c),
    decreases s.len(),
{
    lemma_char_pos(s, c);
    let k = char_pos(s, c) as int;
    if k < s.len() {
        let rest = s.skip(k + 1);
        lemma_split_no_char(rest, c);
        assert forall|i: int| 0 <= i < split(s, c).len() implies !has_char(
            #[trigger] split(s, c)[i],
            c,
        ) by {
            if i > 0 {
                assert(split(s, c)[i] == split(rest, c)[i - 1]);
            }
        }
    }
}

pub proof fn lemma_split_keeps_out(s: Seq<char>, c: char, d: char)
    requires
        !has_char(s, d),
    ensures
        forall|i: int| 0 <= i < split(s, c).len() ==> !has_char(#[trigger] split(s, c)[i], d),
    decreases s.len(),
{
    lemma_char_pos(s, c);
    let k = char_pos(s, c) as int;
    if k < s.len() {
        let rest = s.skip(k + 1);
        assert(!has_char(rest, d)) by {
            if has_char(rest, d) {
                let i = choose|i: int| 0 <= i < rest.len() && rest[i] == d;
                assert(s[i + k + 1] == d);
            }
        }
        lemma_split_keeps_out(rest, c, d);
        assert forall|i: int| 0 <= i < split(s, c).len() implies !has_char(
            #[trigger] split(s, c)[i],
            d,
        ) by {
            if i > 0 {
                assert(split(s, c)[i] == split(rest, c)[i - 1]);
            } else if has_char(s.take(k), d) {
                let j = choose|j: int| 0 <= j < k && s.take(k)[j] == d;
                assert(s[j] == d);
            }
        }
    }
}

/// A text that is put together of pieces, each followed by the separator,
/// splits into these pieces again.
pub proof fn lemma_split_join(parts: Seq<Seq<char>>, c: char)
    requires
        parts.len() > 0,
        forall|i: int| 0 <= i < parts.len() ==> !has_char(#[trigger] parts[i], c),
    ensures
        split(join(parts, seq![c]) + seq![c], c) == parts.push(seq![]),
    decreases parts.len(),
{
    let first = parts[0];
    let none = Seq::<char>::empty();
    lemma_char_pos(first, c);
    assert(char_pos(first, c) == first.len()) by {
        if char_pos(first, c) < first.len() {
            assert(first[char_pos(first, c) as int] == c);
        }
    }
    assert(split(first, c) =~= seq![first]);
    if parts.len() == 1 {
        assert(join(parts, seq![c]) + seq![c] =~= first.push(c) + none);
        lemma_split_append(first, c, none);
        lemma_char_pos(none, c);
        assert(split(none, c) =~= seq![none]);
        assert(split(first, c) + split(none, c) =~= parts.push(seq![]));
    } else {
        let rest = parts.drop_first();
        assert forall|i: int| 0 <= i < rest.len() implies !has_char(#[trigger] rest[i], c) by {
            assert(rest[i] == parts[i + 1]);
        }
        lemma_split_join(rest, c);
        let tail = join(rest, seq![c]) + seq![c];
        assert(join(parts, seq![c]) + seq![c] =~= first.push(c) + tail);
        lemma_split_append(first, c, tail);
        assert(split(first, c) + split(tail, c) =~= parts.push(seq![]));
    }
}

/// A character behind the last separator belongs to the last piece.
pub proof fn lemma_split_push(s: Seq<char>, c: char, d: char)
    requires
        c != d,
    ensures
        split(s, c).len() > 0,
        split(s.push(d), c) == split(s, c).drop_last().push(split(s, c).last().push(d)),
    decreases s.len(),
{
    lemma_char_pos(s, c);
    let k = char_pos(s, c) as int;
    if k < s.len() {
        let rest = s.skip(k + 1);
        lemma_split_push(rest, c, d);
        lemma_char_pos_is(s.push(d), c, k);
        assert(s.push(d).take(k) =~= s.take(k));
        assert(s.push(d).skip(k + 1) =~= rest.push(d));
        let one = seq![s.take(k)];
        assert((one + split(rest, c)).drop_last() =~= one + split(rest, c).drop_last());
        assert(one + split(rest, c).drop_last().push(split(rest, c).last().push(d)) =~= (one
            + split(rest, c)).drop_last().push(split(rest, c).last().push(d)));
    } else {
        lemma_char_pos_is(s.push(d), c, s.len() + 1int);
        assert(seq![s].drop_last().push(s.push(d)) =~= seq![s.push(d)]);
    }
}

pub proof fn lemma_join_keeps_out(parts: Seq<Seq<char>>, sep: Seq<char>, d: char)
    requires
        !has_char(sep, d),
        forall|i: int| 0 <= i < parts.len() ==> !has_char(#[trigger] parts[i], d),
    ensures
        !has_char(join(parts, sep), d),
    decreases parts.len(),
{
    let all = join(parts, sep);
    if parts.len() == 1 {
        assert(all == parts[0]);
    } else if parts.len() > 1 {
        let rest = parts.drop_first();
        assert forall|i: int| 0 <= i < rest.len() implies !has_char(#[trigger] rest[i], d) by {
            assert(rest[i] == parts[i + 1]);
        }
        lemma_join_keeps_out(rest, sep, d);
        assert(!has_char(parts[0], d));
        if has_char(all, d) {
            let i = choose|i: int| 0 <= i < all.len() && all[i] == d;
            let n = parts[0].len() as int;
            if i < n {
                assert(parts[0][i] == d);
            } else if i < n + sep.len() {
                assert(sep[i - n] == d);
            } else {
                assert(join(rest, sep)[i - n - sep.len()] == d);
            }
        }
    }
}

// ---------------------------------------------------------------------------
// Operations
// ---------------------------------------------------------------------------
/// The characters of a string.
pub fn to_chars(s: &str) -> (r: Vec<char>)
    ensures
        r@ == s@,
{
    let mut v: Vec<char> = Vec::new();
    for c in it: s.chars()
        invariant
            v@ == it.seq().take(it.index() as int),
            it.seq() == s@,
    {
        v.push(c);
    }
    v
}

/// The string of some characters.
pub fn to_text(s: &[char]) -> (r: String)
    ensures
        r@ == s@,
{
    let mut out: String = String::new();
    let mut i: usize = 0;
    while i < s.len()
        invariant
            i <= s.len(),
            out@ == s@.take(i as int),
        decreases s.len() - i,
    {
        out.push(s[i]);
        i = i + 1;
        assert(s@.take(i as int) =~= s@.take(i - 1).push(s@[i - 1]));
    }
    assert(s@.take(i as int) =~= s@);
    out
}

/// The same text again.
pub fn copy(s: &str) -> (r: String)
    ensures
        r@ == s@,
{
    s.to_string()
}

/// Are two runs of characters the same?
pub fn same_chars(a: &[char], b: &[char]) -> (r: bool)
    ensures
        r == (a@ == b@),
{
    if a.len() != b.len() {
        return false;
    }
    let mut i: usize = 0;
    while i < a.len()
        invariant
            i <= a.len(),
            a.len() == b.len(),
            forall|j: int| 0 <= j < i ==> a@[j] == b@[j],
        decreases a.len() - i,
    {
        if a[i] != b[i] {
            return false;
        }
        i = i + 1;
    }
    assert(a@ =~= b@);
    true
}

/// Are two strings the same?
pub fn same(a: &str, b: &str) -> (r: bool)
    ensures
        r == (a@ == b@),
{
    same_chars(to_chars(a).as_slice(), to_chars(b).as_slice())
}

/// Is the run of characters the text `b`?
pub fn is_text(a: &[char], b: &str) -> (r: bool)
    ensures
        r == (a@ == b@),
{
    same_chars(a, to_chars(b).as_slice())
}

/// Does `a` come before `b`?
pub fn comes_before(a: &[char], b: &[char]) -> (r: bool)
    ensures
        r == text_less(a@, b@),
{
    let mut i: usize = 0;
    proof {
        assert(a@.skip(0) =~= a@);
        assert(b@.skip(0) =~= b@);
    }
    while i < a.len() && i < b.len() && a[i] == b[i]
        invariant
            i <= a.len(),
            i <= b.len(),
            text_less(a@, b@) == text_less(a@.skip(i as int), b@.skip(i as int)),
        decreases a.len() - i,
    {
        proof {
            assert(a@.skip(i as int).drop_first() =~= a@.skip(i + 1));
            assert(b@.skip(i as int).drop_first() =~= b@.skip(i + 1));
        }
        i = i + 1;
    }
    i < b.len() && (i >= a.len() || a[i] < b[i])
}

/// Where `c` first occurs, or the length.
pub fn find_char(s: &[char], c: char) -> (r: usize)
    ensures
        r == char_pos(s@, c),
        r <= s.len(),
        r < s.len() ==> s@[r as int] == c,
        forall|i: int| 0 <= i < r ==> s@[i] != c,
{
    let mut i: usize = 0;
    while i < s.len() && s[i] != c
        invariant
            i <= s.len(),
            forall|j: int| 0 <= j < i ==> s@[j] != c,
        decreases s.len() - i,
    {
        i = i + 1;
    }
    proof {
        lemma_char_pos_is(s@, c, i as int);
    }
    i
}

/// Where the first white space stands, or the length.
pub fn find_space(s: &[char]) -> (r: usize)
    ensures
        r == space_pos(s@),
        r <= s.len(),
{
    let mut i: usize = 0;
    while i < s.len() && !is_whitespace(s[i])
        invariant
            i <= s.len(),
            forall|j: int| 0 <= j < i ==> !whitespace(s@[j]),
        decreases s.len() - i,
    {
        i = i + 1;
    }
    proof {
        lemma_space_pos_is(s@, i as int);
    }
    i
}

/// What follows the first `n` characters.
pub fn from_index<'a>(s: &'a [char], n: usize) -> (r: &'a [char])
    requires
        n <= s.len(),
    ensures
        r@ == s@.skip(n as int),
{
    slice_subrange(s, n, s.len())
}

/// The first `n` characters.
pub fn up_to<'a>(s: &'a [char], n: usize) -> (r: &'a [char])
    requires
        n <= s.len(),
    ensures
        r@ == s@.take(n as int),
{
    slice_subrange(s, 0, n)
}

/// Without leading white space.
pub fn trimmed_start<'a>(s: &'a [char]) -> (r: &'a [char])
    ensures
        r@ == trim_start(s@),
{
    let mut i: usize = 0;
    while i < s.len() && is_whitespace(s[i])
        invariant
            i <= s.len(),
            forall|j: int| 0 <= j < i ==> whitespace(s@[j]),
        decreases s.len() - i,
    {
        i = i + 1;
    }
    proof {
        lemma_trim_start_is(s@, i as int);
    }
    from_index(s, i)
}

/// Without trailing white space.
pub fn trimmed_end<'a>(s: &'a [char]) -> (r: &'a [char])
    ensures
        r@ == trim_end(s@),
{
    let mut i: usize = s.len();
    while i > 0 && is_whitespace(s[i - 1])
        invariant
            i <= s.len(),
            forall|j: int| i <= j < s.len() ==> whitespace(s@[j]),
        decreases i,
    {
        i = i - 1;
    }
    proof {
        lemma_trim_end_is(s@, i as int);
    }
    up_to(s, i)
}

/// Without white space around it.
pub fn trimmed<'a>(s: &'a [char]) -> (r: &'a [char])
    ensures
        r@ == trim(s@),
{
    trimmed_start(trimmed_end(s))
}

/// Does `s` start with `p`?
pub fn starts_with(s: &[char], p: &[char]) -> (r: bool)
    ensures
        r == p@.is_prefix_of(s@),
{
    p.len() <= s.len() && same_chars(up_to(s, p.len()), p)
}

/// Does `s` end with `p`?
pub fn ends_with(s: &[char], p: &[char]) -> (r: bool)
    ensures
        r == p@.is_suffix_of(s@),
{
    p.len() <= s.len() && same_chars(from_index(s, s.len() - p.len()), p)
}

/// Does `c` occur in `s`?
pub fn contains_char(s: &[char], c: char) -> (r: bool)
    ensures
        r == has_char(s@, c),
{
    find_char(s, c) < s.len()
}

/// The pieces between the occurrences of `c`.
pub fn split_at<'a>(s: &'a [char], c: char) -> (r: Vec<&'a [char]>)
    ensures
        slices(r@) == split(s@, c),
        r.len() > 0,
{
    let mut out: Vec<&'a [char]> = Vec::new();
    let mut rest: &'a [char] = s;
    let mut more: bool = true;
    proof {
        assert(slices(out@) + split(rest@, c) =~= split(s@, c));
    }
    while more
        invariant
            more ==> slices(out@) + split(rest@, c) == split(s@, c),
            !more ==> slices(out@) == split(s@, c) && out.len() > 0,
        decreases rest.len(), more as int,
    {
        let p: usize = find_char(rest, c);
        let ghost before = out@;
        if p < rest.len() {
            let head: &'a [char] = up_to(rest, p);
            let tail: &'a [char] = from_index(rest, p + 1);
            out.push(head);
            proof {
                assert(slices(out@) =~= slices(before).push(head@));
                assert(slices(out@) + split(tail@, c) =~= slices(before) + split(rest@, c));
            }
            rest = tail;
        } else {
            out.push(rest);
            proof {
                assert(slices(out@) =~= slices(before) + split(rest@, c));
            }
            more = false;
        }
    }
    out
}

/// The lines of a text.
pub fn text_lines<'a>(s: &'a [char]) -> (r: Vec<&'a [char]>)
    ensures
        slices(r@) == lines(s@),
{
    let mut out: Vec<&'a [char]> = Vec::new();
    let mut rest: &'a [char] = s;
    proof {
        assert(slices(out@) + lines(rest@) =~= lines(s@));
    }
    while rest.len() > 0
        invariant
            slices(out@) + lines(rest@) == lines(s@),
        decreases rest.len(),
    {
        let p: usize = find_char(rest, '\n');
        let ghost before = out@;
        if p < rest.len() {
            let head: &'a [char] = up_to(rest, p);
            let line: &'a [char] = if p > 0 && head[p - 1] == '\r' {
                up_to(head, p - 1)
            } else {
                head
            };
            let tail: &'a [char] = from_index(rest, p + 1);
            out.push(line);
            proof {
                assert(line@ =~= without_cr(head@));
                assert(slices(out@) =~= slices(before).push(line@));
                assert(slices(out@) + lines(tail@) =~= slices(before) + lines(rest@));
            }
            rest = tail;
        } else {
            out.push(rest);
            let tail: &'a [char] = from_index(rest, rest.len());
            proof {
                assert(slices(out@) =~= slices(before).push(rest@));
                assert(slices(out@) + lines(tail@) =~= slices(before) + lines(rest@));
            }
            rest = tail;
        }
    }
    proof {
        assert(slices(out@) + lines(rest@) =~= slices(out@));
    }
    out
}

/// Without the prefix `p`, taken away as often as it is there.
pub fn stripped_all<'a>(s: &'a [char], p: &[char]) -> (r: &'a [char])
    ensures
        r@ == strip_all(s@, p@),
{
    let mut rest: &'a [char] = s;
    while p.len() > 0 && starts_with(rest, p)
        invariant
            strip_all(rest@, p@) == strip_all(s@, p@),
        decreases rest.len(),
    {
        rest = from_index(rest, p.len());
    }
    rest
}

/// In ASCII lower case.
pub fn to_lowered(s: &[char]) -> (r: Vec<char>)
    ensures
        r@ == lowered(s@),
{
    let mut out: Vec<char> = Vec::new();
    let mut i: usize = 0;
    while i < s.len()
        invariant
            i <= s.len(),
            out@ == lowered(s@.take(i as int)),
        decreases s.len() - i,
    {
        out.push(to_lower(s[i]));
        i = i + 1;
        assert(lowered(s@.take(i as int)) =~= lowered(s@.take(i - 1)).push(lower(s@[i - 1])));
    }
    assert(s@.take(i as int) =~= s@);
    out
}

/// The parts one after the other with `sep` between them.
pub fn joined(parts: &Vec<String>, sep: &str) -> (r: String)
    ensures
        r@ == join(texts(parts@), sep@),
{
    let mut out: String = String::new();
    let n: usize = parts.len();
    if n == 0 {
        return out;
    }
    let mut i: usize = n - 1;
    let mut tail: String = parts[i].clone();
    assert(texts(parts@).skip(i as int) =~= seq![parts@[i as int]@]);
    while i > 0
        invariant
            i < n == parts.len(),
            tail@ == join(texts(parts@).skip(i as int), sep@),
        decreases i,
    {
        i = i - 1;
        let mut front: String = parts[i].clone();
        front.append(sep);
        front.append(tail.as_str());
        assert(texts(parts@).skip(i as int).drop_first() =~= texts(parts@).skip(i + 1));
        assert(front@ =~= join(texts(parts@).skip(i as int), sep@));
        tail = front;
    }
    assert(texts(parts@).skip(0) =~= texts(parts@));
    out = tail;
    out
}

/// A decimal digit.
fn digit_char(d: u128) -> (r: char)
    requires
        d < 10,
    ensures
        r == digit(d as nat),
{
    (48u8 + d as u8) as char
}

/// In decimal.
pub fn to_decimal(n: u128) -> (r: String)
    ensures
        r@ == decimal(n as nat),
    decreases n,
{
    if n < 10 {
        let mut out: String = String::new();
        out.push(digit_char(n));
        assert(out@ =~= seq![digit(n as nat)]);
        out
    } else {
        let mut out: String = to_decimal(n / 10);
        out.push(digit_char(n % 10));
        out
    }
}

proof fn lemma_digits_grow(s: Seq<char>, k: int)
    requires
        0 <= k <= s.len(),
        all_digits(s),
    ensures
        digits_value(s.take(k)) <= digits_value(s),
    decreases s.len() - k,
{
    if k < s.len() {
        lemma_digits_grow(s, k + 1);
        assert(s.take(k + 1).drop_last() =~= s.take(k));
        assert('0' <= s[k] <= '9');
    } else {
        assert(s.take(k) =~= s);
    }
}

/// The 32-bit number that `s` writes in decimal.
pub fn to_u32(s: &[char]) -> (r: Option<u32>)
    ensures
        r == u32_value(s@),
{
    let d: &[char] = if s.len() > 0 && s[0] == '+' {
        from_index(s, 1)
    } else {
        s
    };
    proof {
        assert(d@ =~= unsigned(s@));
    }
    if d.len() == 0 {
        return None;
    }
    let mut i: usize = 0;
    while i < d.len()
        invariant
            i <= d.len(),
            d@ == unsigned(s@),
            forall|j: int| 0 <= j < i ==> '0' <= #[trigger] d@[j] <= '9',
        decreases d.len() - i,
    {
        if !('0' <= d[i] && d[i] <= '9') {
            assert(!('0' <= d@[i as int] <= '9'));
            return None;
        }
        i = i + 1;
    }
    assert(all_digits(d@));
    let mut value: u64 = 0;
    let mut k: usize = 0;
    while k < d.len()
        invariant
            k <= d.len(),
            all_digits(d@),
            d@ == unsigned(s@),
            value == digits_value(d@.take(k as int)),
            value <= u32::MAX,
        decreases d.len() - k,
    {
        let c: char = d[k];
        assert('0' <= d@[k as int] <= '9');
        value = value * 10 + (c as u32 - 48) as u64;
        k = k + 1;
        proof {
            assert(d@.take(k as int).drop_last() =~= d@.take(k - 1));
            lemma_digits_grow(d@, k as int);
        }
        if value > u32::MAX as u64 {
            return None;
        }
    }
    assert(d@.take(k as int) =~= d@);
    Some(value as u32)
}

/// With spaces behind it up to `width` characters.
pub fn to_padded(s: &str, width: usize) -> (r: String)
    ensures
        r@ == padded(s@, width as nat),
{
    let mut out: String = copy(s);
    let mut n: usize = to_chars(s).len();
    proof {
        assert(s@ + spaces(0) =~= s@);
    }
    let ghost start = n;
    while n < width
        invariant
            start == s@.len(),
            start <= n,
            n <= width || n == start,
            out@ == s@ + spaces((n - start) as nat),
        decreases width - n,
    {
        out.push(' ');
        n = n + 1;
        assert(out@ =~= s@ + spaces((n - start) as nat));
    }
    out
}

} // verus!
