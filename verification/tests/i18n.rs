use app_image_manager::i18n::{detect, init, match_locale};
use app_image_manager::locale::ActiveLocale;

/// Build the `lookup` closure from a list of `(var, value)` pairs.
fn env(pairs: &[(&str, &str)]) -> impl Fn(&str) -> Option<String> {
    let pairs: Vec<(String, String)> = pairs
        .iter()
        .map(|(k, v)| (k.to_string(), v.to_string()))
        .collect();
    move |key: &str| pairs.iter().find(|(k, _)| k == key).map(|(_, v)| v.clone())
}

/// The locales this crate ships.
const SHIPPED: [&str; 3] = ["en", "it", "es"];

#[test]
fn strips_codeset_and_modifier() {
    let got = detect(env(&[("LANG", "it_IT.UTF-8@euro")]), &SHIPPED);
    assert_eq!(got, Some("it"));
}

#[test]
fn falls_back_from_region_to_language() {
    // `es_AR` is not shipped, but `es` is.
    let got = detect(env(&[("LANG", "es_AR.UTF-8")]), &SHIPPED);
    assert_eq!(got, Some("es"));
}

#[test]
fn prefers_the_region_specific_catalog() {
    const AVAILABLE: [&str; 2] = ["pt", "pt-BR"];
    assert_eq!(detect(env(&[("LANG", "pt_BR")]), &AVAILABLE), Some("pt-BR"));
    assert_eq!(detect(env(&[("LANG", "pt_PT")]), &AVAILABLE), Some("pt"));
}

#[test]
fn lc_all_outranks_lang() {
    let got = detect(
        env(&[("LC_ALL", "es_ES.UTF-8"), ("LANG", "it_IT.UTF-8")]),
        &SHIPPED,
    );
    assert_eq!(got, Some("es"));
}

#[test]
fn an_empty_variable_does_not_count_as_set() {
    let got = detect(env(&[("LC_ALL", ""), ("LANG", "it_IT.UTF-8")]), &SHIPPED);
    assert_eq!(got, Some("it"));
}

#[test]
fn an_explicit_override_is_not_second_guessed() {
    // LC_ALL wins even though no French is shipped: falling through to LANG
    // would silently ignore the override.
    let got = detect(
        env(&[("LC_ALL", "fr_FR.UTF-8"), ("LANG", "it_IT.UTF-8")]),
        &SHIPPED,
    );
    assert_eq!(got, None);
}

#[test]
fn the_portable_locales_use_the_fallback() {
    assert_eq!(detect(env(&[("LANG", "C")]), &SHIPPED), None);
    assert_eq!(detect(env(&[("LC_ALL", "POSIX")]), &SHIPPED), None);
}

#[test]
fn an_empty_environment_uses_the_fallback() {
    assert_eq!(detect(env(&[]), &SHIPPED), None);
}

#[test]
fn lc_messages_stands_between_the_two() {
    let got = detect(
        env(&[("LC_MESSAGES", "es"), ("LANG", "it_IT.UTF-8")]),
        &SHIPPED,
    );
    assert_eq!(got, Some("es"));
}

/// Detect with a `lookup` that answers these questions, in this order, and takes
/// no other; all of them must be asked.
fn asked_in_turn<'a>(answers: &[(&str, Option<&str>)], available: &[&'a str]) -> Option<&'a str> {
    let next = std::cell::Cell::new(0);
    let got = detect(
        |key: &str| {
            let (expected, answer) = answers[next.get()];
            assert_eq!(key, expected);
            next.set(next.get() + 1);
            answer.map(str::to_string)
        },
        available,
    );
    assert_eq!(next.get(), answers.len());
    got
}

#[test]
fn no_more_variables_are_asked_for_than_needed() {
    assert_eq!(asked_in_turn(&[("LC_ALL", Some("it"))], &SHIPPED), Some("it"));
    assert_eq!(asked_in_turn(&[("LC_ALL", Some("fr"))], &SHIPPED), None);
    assert_eq!(
        asked_in_turn(&[("LC_ALL", Some("")), ("LC_MESSAGES", Some("es"))], &SHIPPED),
        Some("es")
    );
    assert_eq!(
        asked_in_turn(
            &[("LC_ALL", None), ("LC_MESSAGES", Some("")), ("LANG", Some("it_IT"))],
            &SHIPPED
        ),
        Some("it")
    );
    assert_eq!(
        asked_in_turn(&[("LC_ALL", None), ("LC_MESSAGES", None), ("LANG", None)], &SHIPPED),
        None
    );
}

#[test]
fn case_does_not_matter() {
    assert_eq!(match_locale("IT_it", &SHIPPED), Some("it"));
    assert_eq!(match_locale("pt_br.UTF-8", &["pt", "pt-BR"]), Some("pt-BR"));
    assert_eq!(match_locale("C.UTF-8", &SHIPPED), None);
    assert_eq!(match_locale("@euro", &SHIPPED), None);
}

#[test]
fn init_activates_the_locale() {
    let mut active = ActiveLocale::new();
    assert_eq!(active.get(), None);
    assert_eq!(
        init(&mut active, env(&[("LANG", "it_IT.UTF-8")]), &SHIPPED),
        Some("it")
    );
    assert_eq!(active.get(), Some("it"));
    assert_eq!(&*rust_i18n::locale(), "it");
    // Nothing usable: the active locale is left alone.
    assert_eq!(init(&mut active, env(&[("LANG", "fr_FR")]), &SHIPPED), None);
    assert_eq!(active.get(), Some("it"));
    assert_eq!(&*rust_i18n::locale(), "it");
}
