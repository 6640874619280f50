use std::collections::HashSet;

use asteria::interner::{
    pre_seeded_names, Interner, Symbol, PRE_SEEDED_LEN,
    SYM_A,
    SYM_ALT,
    SYM_BACKGROUND_COLOR,
    SYM_BODY,
    SYM_CLASS,
    SYM_COLOR,
    SYM_DISPLAY,
    SYM_DIV,
    SYM_EM,
    SYM_FONT_SIZE,
    SYM_H1,
    SYM_HEAD,
    SYM_HEIGHT,
    SYM_HREF,
    SYM_HTML,
    SYM_ID,
    SYM_LINK,
    SYM_MARGIN,
    SYM_MARGIN_TOP,
    SYM_P,
    SYM_PADDING,
    SYM_POSITION,
    SYM_REL,
    SYM_SPAN,
    SYM_SRC,
    SYM_STRONG,
    SYM_STYLE,
    SYM_TYPE,
    SYM_WIDTH,
};

#[test]
fn test_intern_same_string_same_symbol() {
    let mut interner = Interner::new();
    let a = interner.intern("custom-tag");
    let b = interner.intern("custom-tag");
    assert_eq!(a, b);
}

#[test]
fn test_intern_different_strings_different_symbols() {
    let mut interner = Interner::new();
    let a = interner.intern("alpha");
    let b = interner.intern("beta");
    assert_ne!(a, b);
}

#[test]
fn test_resolve_round_trip() {
    let mut interner = Interner::new();
    let sym = interner.intern("round-trip");
    assert_eq!(interner.resolve(sym), "round-trip");
}

#[test]
fn test_try_resolve_valid() {
    let mut interner = Interner::new();
    let sym = interner.intern("valid");
    assert_eq!(interner.try_resolve(sym), Some("valid"));
}

#[test]
fn test_try_resolve_invalid() {
    let interner = Interner::new();
    assert_eq!(interner.try_resolve(Symbol(99999)), None);
}

#[test]
fn test_intern_is_case_sensitive() {
    let mut interner = Interner::new();
    let lower = interner.intern("div");
    let upper = interner.intern("DIV");
    assert_ne!(lower, upper, "intern() should be case-sensitive");
}

#[test]
fn test_intern_lower_normalizes_case() {
    let mut interner = Interner::new();
    let a = interner.intern_lower("DIV");
    let b = interner.intern_lower("Div");
    let c = interner.intern("div");
    assert_eq!(a, b);
    assert_eq!(a, c, "intern_lower should match pre-seeded lowercase");
}

#[test]
fn test_intern_lower_mixed_case() {
    let mut interner = Interner::new();
    let sym = interner.intern_lower("Background-Color");
    assert_eq!(interner.resolve(sym), "background-color");
}

#[test]
fn test_pre_seeded_html_tags() {
    let interner = Interner::new();
    assert_eq!(interner.resolve(Symbol(SYM_HTML)), "html");
    assert_eq!(interner.resolve(Symbol(SYM_HEAD)), "head");
    assert_eq!(interner.resolve(Symbol(SYM_BODY)), "body");
    assert_eq!(interner.resolve(Symbol(SYM_DIV)), "div");
    assert_eq!(interner.resolve(Symbol(SYM_P)), "p");
    assert_eq!(interner.resolve(Symbol(SYM_SPAN)), "span");
    assert_eq!(interner.resolve(Symbol(SYM_A)), "a");
    assert_eq!(interner.resolve(Symbol(SYM_H1)), "h1");
    assert_eq!(interner.resolve(Symbol(SYM_STYLE)), "style");
    assert_eq!(interner.resolve(Symbol(SYM_LINK)), "link");
    assert_eq!(interner.resolve(Symbol(SYM_STRONG)), "strong");
    assert_eq!(interner.resolve(Symbol(SYM_EM)), "em");
}

#[test]
fn test_pre_seeded_html_attributes() {
    let interner = Interner::new();
    assert_eq!(interner.resolve(Symbol(SYM_CLASS)), "class");
    assert_eq!(interner.resolve(Symbol(SYM_ID)), "id");
    assert_eq!(interner.resolve(Symbol(SYM_HREF)), "href");
    assert_eq!(interner.resolve(Symbol(SYM_SRC)), "src");
    assert_eq!(interner.resolve(Symbol(SYM_REL)), "rel");
    assert_eq!(interner.resolve(Symbol(SYM_TYPE)), "type");
    assert_eq!(interner.resolve(Symbol(SYM_ALT)), "alt");
}

#[test]
fn test_pre_seeded_css_properties() {
    let interner = Interner::new();
    assert_eq!(interner.resolve(Symbol(SYM_COLOR)), "color");
    assert_eq!(interner.resolve(Symbol(SYM_BACKGROUND_COLOR)), "background-color");
    assert_eq!(interner.resolve(Symbol(SYM_DISPLAY)), "display");
    assert_eq!(interner.resolve(Symbol(SYM_WIDTH)), "width");
    assert_eq!(interner.resolve(Symbol(SYM_HEIGHT)), "height");
    assert_eq!(interner.resolve(Symbol(SYM_MARGIN)), "margin");
    assert_eq!(interner.resolve(Symbol(SYM_MARGIN_TOP)), "margin-top");
    assert_eq!(interner.resolve(Symbol(SYM_PADDING)), "padding");
    assert_eq!(interner.resolve(Symbol(SYM_FONT_SIZE)), "font-size");
    assert_eq!(interner.resolve(Symbol(SYM_POSITION)), "position");
}

#[test]
fn test_pre_seeded_count() {
    let interner = Interner::new();
    let pre_seeded = pre_seeded_names();
    assert_eq!(interner.len(), pre_seeded.len());
}

#[test]
fn test_pre_seeded_all_exhaustive() {
    let interner = Interner::new();
    let pre_seeded = pre_seeded_names();
    for (index, &expected) in pre_seeded.iter().enumerate() {
        let sym = Symbol(index as u32);
        assert_eq!(
            interner.resolve(sym),
            expected,
            "Pre-seeded entry at index {} did not match expected symbol constant",
            index
        );
    }
}

#[test]
fn test_pre_seeded_constant_matches_intern() {
    let mut interner = Interner::new();
    assert_eq!(interner.intern("div"), Symbol(SYM_DIV));
    assert_eq!(interner.intern("color"), Symbol(SYM_COLOR));
    assert_eq!(interner.intern("margin-top"), Symbol(SYM_MARGIN_TOP));
    assert_eq!(interner.intern("style"), Symbol(SYM_STYLE));
    assert_eq!(interner.intern("class"), Symbol(SYM_CLASS));
}

#[test]
fn test_lookup_existing() {
    let interner = Interner::new();
    assert_eq!(interner.lookup("div"), Some(Symbol(SYM_DIV)));
    assert_eq!(interner.lookup("color"), Some(Symbol(SYM_COLOR)));
}

#[test]
fn test_lookup_nonexistent() {
    let interner = Interner::new();
    assert_eq!(interner.lookup("nonexistent-tag"), None);
}

#[test]
fn test_symbol_copy_and_clone() {
    let sym = Symbol(SYM_DIV);
    let copy = sym;
    let clone = sym.clone();
    assert_eq!(sym, copy);
    assert_eq!(sym, clone);
}

#[test]
fn test_symbol_ordering() {
    assert!(Symbol(SYM_HTML) < Symbol(SYM_HEAD));
    assert!(Symbol(SYM_DIV) < Symbol(SYM_COLOR));
}

#[test]
fn test_symbol_hash() {
    let mut set = HashSet::new();
    set.insert(Symbol(SYM_DIV));
    set.insert(Symbol(SYM_P));
    set.insert(Symbol(SYM_DIV));
    assert_eq!(set.len(), 2);
}

#[test]
fn test_intern_grows_interner() {
    let mut interner = Interner::new();
    let initial = interner.len();
    interner.intern("brand-new-string");
    assert_eq!(interner.len(), initial + 1);
}

#[test]
fn test_intern_duplicate_does_not_grow() {
    let mut interner = Interner::new();
    let initial = interner.len();
    interner.intern("div");
    assert_eq!(interner.len(), initial);
}

#[test]
fn test_is_empty() {
    let interner = Interner::new();
    assert!(!interner.is_empty(), "should not be empty after pre-seeding");
}

#[test]
fn interner_new_symbol_is_next_index() {
    let mut interner = Interner::new();
    assert_eq!(interner.len(), PRE_SEEDED_LEN);
    let sym = interner.intern("zz-new");
    assert_eq!(sym, Symbol(67));
    assert_eq!(interner.lookup("zz-new"), Some(Symbol(67)));
}

#[test]
fn interner_lower_of_non_ascii_is_unchanged() {
    let mut interner = Interner::new();
    let sym = interner.intern_lower("ÉCOLE");
    assert_eq!(interner.resolve(sym), "École");
}
