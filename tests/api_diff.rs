use ci_tool::api_diff::{identity_key, key_less, ApiItem, ApiToken, PublicApiDiff, TokenClass};

fn item(key: &str, text: &str) -> ApiItem {
    ApiItem { key: key.to_string(), text: text.to_string() }
}

fn texts(v: &[ApiItem]) -> Vec<String> {
    v.iter().map(|i| i.text.clone()).collect()
}

#[test]
fn changed_added_and_kept() {
    let base = vec![item("fn a", "pub fn a()"), item("fn b", "pub fn b()")];
    let dev = vec![item("fn a", "pub fn a(x: u8)"), item("fn b", "pub fn b()"), item("fn c", "pub fn c()")];
    let d = PublicApiDiff::between(&base, &dev);
    assert_eq!(texts(&d.added), vec!["pub fn c()"]);
    assert!(d.removed.is_empty());
    assert_eq!(d.changed.len(), 1);
    assert_eq!(d.changed[0].old.text, "pub fn a()");
    assert_eq!(d.changed[0].new.text, "pub fn a(x: u8)");
}

#[test]
fn diff_with_itself_is_empty() {
    let s = vec![item("fn a", "pub fn a()"), item("struct S", "pub struct S")];
    let d = PublicApiDiff::between(&s, &s);
    assert!(d.is_empty());
    assert_eq!(d.render_changelog(), "");
}

#[test]
fn diff_from_empty_adds_everything() {
    let new = vec![item("fn a", "pub fn a()"), item("fn b", "pub fn b()")];
    let d = PublicApiDiff::between(&Vec::new(), &new);
    assert_eq!(texts(&d.added), vec!["pub fn a()", "pub fn b()"]);
    assert!(d.removed.is_empty());
    assert!(d.changed.is_empty());
}

#[test]
fn swapping_snapshots_swaps_the_diff() {
    let old = vec![item("fn a", "pub fn a()"), item("fn b", "pub fn b()")];
    let new = vec![item("fn a", "pub fn a(x: u8)"), item("fn c", "pub fn c()")];
    let fwd = PublicApiDiff::between(&old, &new);
    let back = PublicApiDiff::between(&new, &old);
    assert_eq!(texts(&fwd.added), texts(&back.removed));
    assert_eq!(texts(&fwd.removed), texts(&back.added));
    assert_eq!(fwd.changed.len(), 1);
    assert_eq!(back.changed.len(), 1);
    assert_eq!(fwd.changed[0].old.text, back.changed[0].new.text);
    assert_eq!(fwd.changed[0].new.text, back.changed[0].old.text);
}

#[test]
fn diff_renders_each_list() {
    let old = vec![item("fn a", "pub fn a()"), item("fn b", "pub fn b()")];
    let new = vec![item("fn a", "pub fn a(x: u8)"), item("fn c", "pub fn c()")];
    let d = PublicApiDiff::between(&old, &new);
    assert_eq!(
        d.render_changelog(),
        "### Removed\n\n- `pub fn b()`\n\n### Changed\n\n- `pub fn a()` becomes `pub fn a(x: u8)`\n\n\
         ### Added\n\n- `pub fn c()`\n\n"
    );
}

#[test]
fn lists_are_sorted_by_key() {
    let old = vec![item("fn z", "pub fn z()"), item("fn m", "pub fn m()"), item("fn k", "pub fn k()")];
    let new = vec![item("fn y", "pub fn y()"), item("fn b", "pub fn b()"), item("fn k", "pub fn k(x: u8)")];
    let d = PublicApiDiff::between(&old, &new);
    assert_eq!(texts(&d.added), vec!["pub fn b()", "pub fn y()"]);
    assert_eq!(texts(&d.removed), vec!["pub fn m()", "pub fn z()"]);
    assert_eq!(d.changed.len(), 1);
    assert_eq!(d.changed[0].new.text, "pub fn k(x: u8)");
}

#[test]
fn key_order_is_string_order() {
    assert!(key_less(&"fn a".to_string(), &"fn b".to_string()));
    assert!(key_less(&"fn a".to_string(), &"fn ab".to_string()));
    assert!(!key_less(&"fn b".to_string(), &"fn a".to_string()));
    assert!(!key_less(&"fn a".to_string(), &"fn a".to_string()));
}

#[test]
fn shared_key_items_against_themselves() {
    let s = vec![item("fn X::from", "pub fn X::from(a: u8)"), item("fn X::from", "pub fn X::from(a: u16)")];
    let d = PublicApiDiff::between(&s, &s);
    assert!(d.is_empty());
}

#[test]
fn identical_items_are_not_paired() {
    let old = vec![item("fn X::from", "pub fn X::from(a: u8)")];
    let new = vec![item("fn X::from", "pub fn X::from(a: u8)"), item("fn X::from", "pub fn X::from(a: u16)")];
    let d = PublicApiDiff::between(&old, &new);
    assert_eq!(texts(&d.added), vec!["pub fn X::from(a: u16)"]);
    assert!(d.removed.is_empty());
    assert!(d.changed.is_empty());
}

fn tok(class: TokenClass, text: &str) -> ApiToken {
    ApiToken { class, text: text.to_string() }
}

#[test]
fn identity_key_is_kind_and_path() {
    let toks = vec![
        tok(TokenClass::Qualifier, "pub"),
        tok(TokenClass::Other, " "),
        tok(TokenClass::Kind, "fn"),
        tok(TokenClass::Other, " "),
        tok(TokenClass::Other, "a"),
        tok(TokenClass::Symbol, "::"),
        tok(TokenClass::Other, "b"),
        tok(TokenClass::Symbol, "("),
        tok(TokenClass::Other, "x"),
    ];
    assert_eq!(identity_key(&toks), "fn a::b");
    let field = vec![
        tok(TokenClass::Kind, "struct field"),
        tok(TokenClass::Other, " "),
        tok(TokenClass::Other, "S::x"),
        tok(TokenClass::Symbol, ":"),
        tok(TokenClass::Other, " u8"),
    ];
    assert_eq!(identity_key(&field), "struct field S::x");
}
