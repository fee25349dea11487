use bouncer::error::Error;
use bouncer::i18n::{render, LocaleRegistry};

#[test]
fn render_substitutes_known_placeholders() {
    let result = render("hi {name}, it is {day}", &[("name", "bob"), ("day", "fri")]);
    assert_eq!(result, "hi bob, it is fri");
}

#[test]
fn render_leaves_unknown_placeholders() {
    let result = render("hi {name}, it is {day}", &[("name", "bob")]);
    assert_eq!(result, "hi bob, it is {day}");
}

#[test]
fn builtin_locales_load() {
    let registry = LocaleRegistry::load("en").expect("en loads");
    assert!(registry.is_known("en"));
    assert!(registry.is_known("zh-CN"));
    assert!(!registry.resolve(Some("en")).start_button.is_empty());
    assert!(!registry.resolve(Some("zh-CN")).start_button.is_empty());
    assert!(!registry.resolve(Some("xx")).start_button.is_empty());
}

#[test]
fn render_without_args_returns_template() {
    assert_eq!(render("a {b} c", &[]), "a {b} c");
}

#[test]
fn render_keeps_unclosed_brace() {
    assert_eq!(render("x {y", &[("y", "1")]), "x {y");
    assert_eq!(render("{a} and {b", &[("a", "1")]), "1 and {b");
}

#[test]
fn render_uses_first_matching_argument() {
    assert_eq!(render("{k}{k}", &[("k", "1"), ("k", "2")]), "11");
}

#[test]
fn render_key_may_hold_open_brace() {
    assert_eq!(render("{a{b}c", &[("a{b", "X")]), "Xc");
}

#[test]
fn resolve_falls_back_to_default() {
    let registry = LocaleRegistry::load("zh-CN").unwrap();
    let zh = registry.resolve(None).start_button.clone();
    assert_eq!(registry.resolve(Some("fr")).start_button, zh);
    assert_ne!(registry.resolve(Some("en")).start_button, zh);
    assert!(!registry.is_known("fr"));
}

#[test]
fn load_rejects_unknown_default() {
    match LocaleRegistry::load("fr") {
        Err(Error::UnknownLocale(name)) => assert_eq!(name, "fr"),
        other => panic!("unexpected {other:?}"),
    }
}

#[test]
fn chinese_locale_is_distinct() {
    let registry = LocaleRegistry::load("en").unwrap();
    assert_ne!(registry.resolve(Some("zh-CN")).approved, registry.resolve(Some("en")).approved);
    assert!(registry.resolve(Some("zh-CN")).welcome.contains("{minutes}"));
}
