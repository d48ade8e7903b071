//! Runtime locale selection.
//!
//! The catalogs never look at the environment: without an explicit choice every
//! message comes back in the fallback language. The choice follows the part of
//! the POSIX lookup that matters for a desktop tool, the first non-empty of
//! `LC_ALL`, `LC_MESSAGES` and `LANG`, narrowed to a locale that is shipped.
use vstd::prelude::*;

use crate::desktop::opt_text;
use crate::locale::ActiveLocale;
use crate::text::{char_pos, find_char, is_text, lowered, opt_string, same_chars, to_chars,
    to_lowered, up_to};

verus! {

/// The texts of some string slices.
pub open spec fn str_texts(v: Seq<&str>) -> Seq<Seq<char>> {
    Seq::new(v.len(), |i: int| v[i]@)
}

/// A POSIX locale without its codeset and modifier: `it_IT.UTF-8@euro` is
/// `it_IT`.
pub open spec fn locale_tag(raw: Seq<char>) -> Seq<char> {
    let dotless = raw.take(char_pos(raw, '.') as int);
    dotless.take(char_pos(dotless, '@') as int)
}

/// The tag with the separator that the catalogs are named with.
pub open spec fn dashed(tag: Seq<char>) -> Seq<char> {
    tag.map_values(
        |c: char|
            if c == '_' {
                '-'
            } else {
                c
            },
    )
}

/// The language of a tag.
pub open spec fn language(tag: Seq<char>) -> Seq<char> {
    tag.take(char_pos(tag, '-') as int)
}

/// The first of the locales that is `wanted`, upper and lower case the same.
pub open spec fn first_named(available: Seq<Seq<char>>, wanted: Seq<char>) -> Option<Seq<char>>
    decreases available.len(),
{
    if available.len() == 0 {
        None
    } else if lowered(available[0]) == lowered(wanted) {
        Some(available[0])
    } else {
        first_named(available.drop_first(), wanted)
    }
}

/// The locale among `available` that `raw` asks for. The portable locales carry
/// no language at all. A region-specific catalog comes first (`pt-BR` beats
/// `pt`), then that of the bare language.
pub open spec fn matching(raw: Seq<char>, available: Seq<Seq<char>>) -> Option<Seq<char>> {
    let tag = locale_tag(raw);
    if tag.len() == 0 || tag == "C"@ || tag == "POSIX"@ {
        None
    } else if first_named(available, dashed(tag)) is Some {
        first_named(available, dashed(tag))
    } else {
        first_named(available, language(dashed(tag)))
    }
}

/// Is the variable set to something?
pub open spec fn is_given(value: Option<Seq<char>>) -> bool {
    value is Some && value->0.len() > 0
}

/// The locale that the environment asks for: the first variable that is set and
/// not empty decides, whether or not it names a shipped locale.
pub open spec fn resolved(
    lc_all: Option<Seq<char>>,
    lc_messages: Option<Seq<char>>,
    lang: Option<Seq<char>>,
    available: Seq<Seq<char>>,
) -> Option<Seq<char>> {
    if is_given(lc_all) {
        matching(lc_all->0, available)
    } else if is_given(lc_messages) {
        matching(lc_messages->0, available)
    } else if is_given(lang) {
        matching(lang->0, available)
    } else {
        None
    }
}

fn to_dashed(tag: &[char]) -> (r: Vec<char>)
    ensures
        r@ == dashed(tag@),
{
    let mut out: Vec<char> = Vec::new();
    let mut i: usize = 0;
    while i < tag.len()
        invariant
            i <= tag.len(),
            out@ == dashed(tag@.take(i as int)),
        decreases tag.len() - i,
    {
        if tag[i] == '_' {
            out.push('-');
        } else {
            out.push(tag[i]);
        }
        assert(out@ =~= dashed(tag@.take(i + 1)));
        i += 1;
    }
    assert(tag@.take(i as int) =~= tag@);
    out
}

fn find_named<'a>(available: &[&'a str], wanted: &[char]) -> (r: Option<&'a str>)
    ensures
        opt_text(r) == first_named(str_texts(available@), wanted@),
{
    let low: Vec<char> = to_lowered(wanted);
    let ghost all = str_texts(available@);
    let mut i: usize = 0;
    assert(all.skip(0) =~= all);
    while i < available.len()
        invariant
            i <= available.len(),
            all == str_texts(available@),
            low@ == lowered(wanted@),
            first_named(all, wanted@) == first_named(all.skip(i as int), wanted@),
        decreases available.len() - i,
    {
        let candidate: Vec<char> = to_chars(available[i]);
        proof {
            assert(all.skip(i as int)[0] == available@[i as int]@);
            assert(all.skip(i as int).drop_first() =~= all.skip(i + 1));
        }
        if same_chars(to_lowered(candidate.as_slice()).as_slice(), low.as_slice()) {
            return Some(available[i]);
        }
        i += 1;
    }
    None
}

/// Match a POSIX locale string such as `it_IT.UTF-8@euro` against the shipped
/// catalogs.
pub fn match_locale<'a>(raw: &str, available: &[&'a str]) -> (r: Option<&'a str>)
    ensures
        opt_text(r) == matching(raw@, str_texts(available@)),
{
    let chars: Vec<char> = to_chars(raw);
    let dotless: &[char] = up_to(chars.as_slice(), find_char(chars.as_slice(), '.'));
    let tag: &[char] = up_to(dotless, find_char(dotless, '@'));
    if tag.len() == 0 || is_text(tag, "C") || is_text(tag, "POSIX") {
        return None;
    }
    let full: Vec<char> = to_dashed(tag);
    match find_named(available, full.as_slice()) {
        Some(found) => Some(found),
        None => {
            let n: usize = find_char(full.as_slice(), '-');
            find_named(available, up_to(full.as_slice(), n))
        },
    }
}

fn given(value: &Option<String>) -> (r: bool)
    ensures
        r == is_given(opt_string(*value)),
{
    match value {
        Some(text) => to_chars(text.as_str()).len() > 0,
        None => false,
    }
}

/// Are these what `lookup` gave for the variables, as far as it had to be asked
/// for them?
pub open spec fn are_answers<F: Fn(&str) -> Option<String>>(
    lookup: F,
    lc_all: Option<String>,
    lc_messages: Option<String>,
    lang: Option<String>,
) -> bool {
    &&& call_ensures(lookup, ("LC_ALL",), lc_all)
    &&& is_given(opt_string(lc_all)) || call_ensures(lookup, ("LC_MESSAGES",), lc_messages)
    &&& is_given(opt_string(lc_all)) || is_given(opt_string(lc_messages)) || call_ensures(
        lookup,
        ("LANG",),
        lang,
    )
}

/// Is `found` the locale for what `lookup` gave for the variables?
pub open spec fn is_detected<F: Fn(&str) -> Option<String>>(
    lookup: F,
    available: Seq<Seq<char>>,
    found: Option<Seq<char>>,
) -> bool {
    exists|lc_all: Option<String>, lc_messages: Option<String>, lang: Option<String>| #[trigger]
        are_answers(lookup, lc_all, lc_messages, lang) && found == resolved(
            opt_string(lc_all),
            opt_string(lc_messages),
            opt_string(lang),
            available,
        )
}

/// Can `lookup` be asked for the variables in turn, for each one as long as those
/// before it gave nothing?
pub open spec fn can_be_asked<F: Fn(&str) -> Option<String>>(lookup: F) -> bool {
    &&& call_requires(lookup, ("LC_ALL",))
    &&& forall|lc_all: Option<String>|
        #![trigger call_ensures(lookup, ("LC_ALL",), lc_all)]
        call_ensures(lookup, ("LC_ALL",), lc_all) && !is_given(opt_string(lc_all))
            ==> call_requires(lookup, ("LC_MESSAGES",))
    &&& forall|lc_all: Option<String>, lc_messages: Option<String>|
        #![trigger call_ensures(lookup, ("LC_ALL",), lc_all),
            call_ensures(lookup, ("LC_MESSAGES",), lc_messages)]
        call_ensures(lookup, ("LC_ALL",), lc_all) && !is_given(opt_string(lc_all)) && call_ensures(
            lookup,
            ("LC_MESSAGES",),
            lc_messages,
        ) && !is_given(opt_string(lc_messages)) ==> call_requires(lookup, ("LANG",))
}

/// Resolve the environment to one of `available`, or `None` to keep the
/// fallback.
///
/// `lookup` gives the value of a variable; it is asked for `LC_ALL`,
/// `LC_MESSAGES` and `LANG` in turn, and for no more of them than it takes to
/// find the one that decides. It need not take any other question.
pub fn detect<'a, F: Fn(&str) -> Option<String>>(lookup: F, available: &[&'a str]) -> (r: Option<
    &'a str,
>)
    requires
        can_be_asked(lookup),
    ensures
        is_detected(lookup, str_texts(available@), opt_text(r)),
{
    let lc_all: Option<String> = lookup("LC_ALL");
    let ghost none: Option<String> = None;
    if given(&lc_all) {
        assert(are_answers(lookup, lc_all, none, none));
        match lc_all {
            Some(raw) => {
                return match_locale(raw.as_str(), available);
            },
            None => {},
        }
    }
    let lc_messages: Option<String> = lookup("LC_MESSAGES");
    if given(&lc_messages) {
        assert(are_answers(lookup, lc_all, lc_messages, none));
        match lc_messages {
            Some(raw) => {
                return match_locale(raw.as_str(), available);
            },
            None => {},
        }
    }
    let lang: Option<String> = lookup("LANG");
    assert(are_answers(lookup, lc_all, lc_messages, lang));
    if given(&lang) {
        match lang {
            Some(raw) => {
                return match_locale(raw.as_str(), available);
            },
            None => {},
        }
    }
    None
}

/// Pick the UI language from the environment, activate it and return it. When
/// nothing usable is found the active locale is left alone, so that the fallback
/// is served.
pub fn init<'a, F: Fn(&str) -> Option<String>>(
    locale: &mut ActiveLocale,
    lookup: F,
    available: &[&'a str],
) -> (r: Option<&'a str>)
    requires
        can_be_asked(lookup),
    ensures
        is_detected(lookup, str_texts(available@), opt_text(r)),
        final(locale).active() == (match r {
            Some(found) => Some(found@),
            None => old(locale).active(),
        }),
{
    let found: Option<&'a str> = detect(lookup, available);
    match found {
        Some(name) => {
            locale.activate(name);
        },
        None => {},
    }
    found
}

/// The first variable that is set decides alone, in the order of POSIX, and one
/// that is empty does not count as set.
pub proof fn law_first_variable_decides(
    lc_all: Option<Seq<char>>,
    lc_messages: Option<Seq<char>>,
    lang: Option<Seq<char>>,
    available: Seq<Seq<char>>,
)
    ensures
        is_given(lc_all) ==> resolved(lc_all, lc_messages, lang, available) == resolved(
            lc_all,
            None,
            None,
            available,
        ),
        !is_given(lc_all) ==> resolved(lc_all, lc_messages, lang, available) == resolved(
            None,
            lc_messages,
            lang,
            available,
        ),
        !is_given(lc_messages) ==> resolved(lc_all, lc_messages, lang, available) == resolved(
            lc_all,
            None,
            lang,
            available,
        ),
        !is_given(lc_all) && is_given(lc_messages) ==> resolved(
            lc_all,
            lc_messages,
            lang,
            available,
        ) == resolved(None, lc_messages, None, available),
{
}

proof fn lemma_first_named(available: Seq<Seq<char>>, wanted: Seq<char>)
    ensures
        first_named(available, wanted) is Some ==> available.contains(
            first_named(available, wanted)->0,
        ) && lowered(first_named(available, wanted)->0) == lowered(wanted),
        first_named(available, wanted) is None ==> forall|i: int|
            0 <= i < available.len() ==> lowered(#[trigger] available[i]) != lowered(wanted),
    decreases available.len(),
{
    if available.len() > 0 {
        let rest = available.drop_first();
        lemma_first_named(rest, wanted);
        if lowered(available[0]) == lowered(wanted) {
            assert(available.contains(available[0]));
        } else if first_named(rest, wanted) is Some {
            let found = first_named(rest, wanted)->0;
            let i = choose|i: int| 0 <= i < rest.len() && rest[i] == found;
            assert(available[i + 1] == found);
        } else {
            assert forall|i: int| 0 <= i < available.len() implies lowered(
                #[trigger] available[i],
            ) != lowered(wanted) by {
                if i > 0 {
                    assert(available[i] == rest[i - 1]);
                }
            }
        }
    }
}

/// Only a shipped locale is ever chosen, and a shipped region-specific one is
/// chosen before that of its bare language.
pub proof fn law_only_shipped_locales(raw: Seq<char>, available: Seq<Seq<char>>)
    ensures
        matching(raw, available) is Some ==> available.contains(matching(raw, available)->0),
        matching(raw, available) is Some && (exists|i: int|
            0 <= i < available.len() && lowered(#[trigger] available[i]) == lowered(
                dashed(locale_tag(raw)),
            )) ==> lowered(matching(raw, available)->0) == lowered(dashed(locale_tag(raw))),
{
    let full = dashed(locale_tag(raw));
    lemma_first_named(available, full);
    lemma_first_named(available, language(full));
}

} // verus!
