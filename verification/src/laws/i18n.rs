//! Which locale the environment asks for.
use vstd::prelude::*;

use crate::i18n::{are_answers, dashed, first_named, is_detected, language, locale_tag, matching,
    resolved};
use crate::text::{char_pos, lemma_char_pos, lemma_char_pos_is, lowered, opt_string};

verus! {

/// No dot and no at sign: nothing but the language and the region.
pub open spec fn bare_tag(t: Seq<char>) -> bool {
    forall|i: int| 0 <= i < t.len() ==> t[i] != '.' && t[i] != '@'
}

/// The codeset and the modifier of a locale do not count, whatever they are.
pub proof fn law_codeset_and_modifier(t: Seq<char>, rest: Seq<char>, available: Seq<Seq<char>>)
    requires
        bare_tag(t),
    ensures
        matching(t + seq!['.'] + rest, available) == matching(t, available),
        matching(t + seq!['@'] + rest, available) == matching(t, available),
{
    lemma_tag(t);
    let a = t + seq!['.'] + rest;
    assert forall|i: int| 0 <= i < t.len() implies a[i] != '.' by {
        assert(a[i] == t[i]);
    }
    lemma_char_pos_is(a, '.', t.len() as int);
    assert(a.take(t.len() as int) =~= t);
    lemma_char_pos_is(t, '@', t.len() as int);
    assert(t.take(t.len() as int) =~= t);
    assert(locale_tag(a) == t);
    let b = t + seq!['@'] + rest;
    lemma_char_pos(b, '.');
    let n = char_pos(b, '.') as int;
    assert forall|i: int| 0 <= i < t.len() implies b[i] != '.' by {
        assert(b[i] == t[i]);
    }
    assert(b[t.len() as int] == '@');
    assert(n > t.len()) by {
        if n < b.len() {
            assert(b[n] == '.');
        }
    }
    let dotless = b.take(n);
    assert forall|i: int| 0 <= i < t.len() implies dotless[i] != '@' by {
        assert(dotless[i] == t[i]);
    }
    lemma_char_pos_is(dotless, '@', t.len() as int);
    assert(dotless.take(t.len() as int) =~= t);
}

proof fn lemma_tag(t: Seq<char>)
    requires
        bare_tag(t),
    ensures
        locale_tag(t) == t,
{
    lemma_char_pos_is(t, '.', t.len() as int);
    assert(t.take(t.len() as int) =~= t);
    lemma_char_pos_is(t, '@', t.len() as int);
}

/// The portable locales ask for no language, and neither does an empty one.
pub proof fn law_portable_locales(available: Seq<Seq<char>>)
    ensures
        matching("C"@, available) is None,
        matching("POSIX"@, available) is None,
        matching(Seq::<char>::empty(), available) is None,
{
    reveal_strlit("C");
    reveal_strlit("POSIX");
    lemma_tag("C"@);
    lemma_tag("POSIX"@);
    lemma_tag(Seq::<char>::empty());
}

/// Is the locale at `k` the first that is `wanted`, upper and lower case the same?
/// At the end of the list, that none is.
pub open spec fn first_at(available: Seq<Seq<char>>, wanted: Seq<char>, k: int) -> bool {
    &&& 0 <= k <= available.len()
    &&& forall|i: int| 0 <= i < k ==> lowered(#[trigger] available[i]) != lowered(wanted)
    &&& k < available.len() ==> lowered(available[k]) == lowered(wanted)
}

proof fn lemma_first_named_is(available: Seq<Seq<char>>, wanted: Seq<char>, k: int)
    requires
        first_at(available, wanted, k),
    ensures
        first_named(available, wanted) == (if k < available.len() {
            Some(available[k])
        } else {
            None
        }),
    decreases available.len(),
{
    if available.len() > 0 && k > 0 {
        assert(lowered(available[0]) != lowered(wanted));
        let rest = available.drop_first();
        assert forall|i: int| 0 <= i < k - 1 implies lowered(#[trigger] rest[i]) != lowered(
            wanted,
        ) by {
            assert(rest[i] == available[i + 1]);
        }
        lemma_first_named_is(rest, wanted, k - 1);
    }
}

/// A locale with a region asks for the catalog of both, the first such one, and
/// only where there is none for that of the language; with neither shipped it
/// asks for nothing. Every shipped locale can be asked for.
pub proof fn law_region_before_language(
    lang: Seq<char>,
    region: Seq<char>,
    available: Seq<Seq<char>>,
    both: int,
    alone: int,
)
    requires
        bare_tag(lang),
        bare_tag(region),
        lang.len() > 0,
        forall|i: int| 0 <= i < lang.len() ==> lang[i] != '_' && lang[i] != '-',
        forall|i: int| 0 <= i < region.len() ==> region[i] != '_',
        first_at(available, lang + seq!['-'] + region, both),
        first_at(available, lang, alone),
    ensures
        ({
            let found = matching(lang + seq!['_'] + region, available);
            &&& both < available.len() ==> found == Some(available[both])
            &&& both == available.len() && alone < available.len() ==> found == Some(
                available[alone],
            )
            &&& both == available.len() && alone == available.len() ==> found is None
        }),
{
    reveal_strlit("C");
    reveal_strlit("POSIX");
    let tag = lang + seq!['_'] + region;
    let full = lang + seq!['-'] + region;
    let n = lang.len() as int;
    assert forall|i: int| 0 <= i < tag.len() implies tag[i] != '.' && tag[i] != '@' by {
        if i < n {
            assert(tag[i] == lang[i]);
        } else if i > n {
            assert(tag[i] == region[i - n - 1]);
        }
    }
    lemma_tag(tag);
    assert(tag[n] == '_');
    if tag == "C"@ {
        assert("C"@[n] == '_');
    }
    if tag == "POSIX"@ {
        assert("POSIX"@[n] == '_');
    }
    assert(dashed(tag) =~= full) by {
        assert forall|i: int| 0 <= i < tag.len() implies dashed(tag)[i] == full[i] by {
            if i < n {
                assert(tag[i] == lang[i] && full[i] == lang[i]);
            } else if i > n {
                assert(tag[i] == region[i - n - 1] && full[i] == region[i - n - 1]);
            }
        }
    }
    assert forall|i: int| 0 <= i < n implies full[i] != '-' by {
        assert(full[i] == lang[i]);
    }
    assert(full[n] == '-');
    lemma_char_pos_is(full, '-', n);
    assert(language(full) =~= lang);
    lemma_first_named_is(available, full, both);
    lemma_first_named_is(available, lang, alone);
}

/// It does not matter with which of the two separators a locale is written.
pub proof fn law_separators(a: Seq<char>, b: Seq<char>, available: Seq<Seq<char>>)
    requires
        bare_tag(a),
        bare_tag(b),
    ensures
        matching(a + seq!['_'] + b, available) == matching(a + seq!['-'] + b, available),
{
    reveal_strlit("C");
    reveal_strlit("POSIX");
    let x = a + seq!['_'] + b;
    let y = a + seq!['-'] + b;
    let n = a.len() as int;
    assert forall|i: int| 0 <= i < x.len() implies x[i] != '.' && x[i] != '@' && y[i] != '.' && y[i]
        != '@' by {
        if i < n {
            assert(x[i] == a[i] && y[i] == a[i]);
        } else if i > n {
            assert(x[i] == b[i - n - 1] && y[i] == b[i - n - 1]);
        }
    }
    lemma_tag(x);
    lemma_tag(y);
    assert(x[n] == '_' && y[n] == '-');
    assert(x != "C"@ && y != "C"@ && x != "POSIX"@ && y != "POSIX"@) by {
        if x == "C"@ || y == "C"@ {
            assert("C"@[n] == '_' || "C"@[n] == '-');
        }
        if x == "POSIX"@ || y == "POSIX"@ {
            assert("POSIX"@[n] == '_' || "POSIX"@[n] == '-');
        }
    }
    assert(dashed(x) =~= dashed(y)) by {
        assert forall|i: int| 0 <= i < x.len() implies dashed(x)[i] == dashed(y)[i] by {
            if i < n {
                assert(x[i] == a[i] && y[i] == a[i]);
            } else if i > n {
                assert(x[i] == b[i - n - 1] && y[i] == b[i - n - 1]);
            }
        }
    }
}

/// A locale without a region asks for the first catalog of its language.
pub proof fn law_language_alone(lang: Seq<char>, available: Seq<Seq<char>>, k: int)
    requires
        bare_tag(lang),
        lang.len() > 0,
        lang != "C"@,
        lang != "POSIX"@,
        forall|i: int| 0 <= i < lang.len() ==> lang[i] != '_' && lang[i] != '-',
        first_at(available, lang, k),
    ensures
        k < available.len() ==> matching(lang, available) == Some(available[k]),
        k == available.len() ==> matching(lang, available) is None,
{
    lemma_tag(lang);
    assert(dashed(lang) =~= lang);
    lemma_char_pos_is(lang, '-', lang.len() as int);
    assert(language(lang) =~= lang);
    lemma_first_named_is(available, lang, k);
}

/// The first of the three variables that is not empty decides, whatever it says
/// and whatever the others say.
pub proof fn law_first_text_decides(
    text: Seq<char>,
    unset: Option<Seq<char>>,
    empty: Option<Seq<char>>,
    any: Option<Seq<char>>,
    other: Option<Seq<char>>,
    available: Seq<Seq<char>>,
)
    requires
        text.len() > 0,
        unset is None || unset->0.len() == 0,
        empty is None || empty->0.len() == 0,
    ensures
        resolved(Some(text), any, other, available) == matching(text, available),
        resolved(unset, Some(text), any, available) == matching(text, available),
        resolved(unset, empty, Some(text), available) == matching(text, available),
        resolved(unset, empty, unset, available) is None,
{
}

/// What is detected follows from the environment alone: where `LC_ALL` is set to
/// something it decides, then `LC_MESSAGES`, then `LANG`; and where none of them
/// is, nothing is found.
pub proof fn law_detected<F: Fn(&str) -> Option<String>>(
    lookup: F,
    env: spec_fn(Seq<char>) -> Option<Seq<char>>,
    available: Seq<Seq<char>>,
    found: Option<Seq<char>>,
)
    requires
        is_detected(lookup, available, found),
        forall|key: &str, answer: Option<String>|
            #![trigger call_ensures(lookup, (key,), answer)]
            call_ensures(lookup, (key,), answer) ==> opt_string(answer) == env(key@),
    ensures
        ({
            let set = |key: Seq<char>| env(key) is Some && env(key)->0.len() > 0;
            &&& set("LC_ALL"@) ==> found == matching(env("LC_ALL"@)->0, available)
            &&& !set("LC_ALL"@) && set("LC_MESSAGES"@) ==> found == matching(
                env("LC_MESSAGES"@)->0,
                available,
            )
            &&& !set("LC_ALL"@) && !set("LC_MESSAGES"@) && set("LANG"@) ==> found == matching(
                env("LANG"@)->0,
                available,
            )
            &&& !set("LC_ALL"@) && !set("LC_MESSAGES"@) && !set("LANG"@) ==> found is None
        }),
{
    let (a, m, l) = choose|a: Option<String>, m: Option<String>, l: Option<String>| #[trigger]
        are_answers(lookup, a, m, l) && found == resolved(
            opt_string(a),
            opt_string(m),
            opt_string(l),
            available,
        );
    assert(call_ensures(lookup, ("LC_ALL",), a));
    assert(opt_string(a) == env("LC_ALL"@));
    if !(opt_string(a) is Some && opt_string(a)->0.len() > 0) {
        assert(call_ensures(lookup, ("LC_MESSAGES",), m));
        assert(opt_string(m) == env("LC_MESSAGES"@));
        if !(opt_string(m) is Some && opt_string(m)->0.len() > 0) {
            assert(call_ensures(lookup, ("LANG",), l));
            assert(opt_string(l) == env("LANG"@));
        }
    }
}

} // verus!
