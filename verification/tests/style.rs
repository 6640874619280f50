use asteria::css_parser::{Selector, SimpleSelector};
use asteria::style::{
    compute_specificity, is_default_block_tag, is_default_inline_block_tag, parse_inline_style,
    split_var_args, strip_important, Origin,
};

#[test]
fn test_specificity_calculation() {
    let sel = Selector {
        parts: vec![vec![SimpleSelector::Tag("div".into())]],
        steps: Vec::new(),
    };
    assert_eq!(compute_specificity(&sel), (0, 0, 1));

    let sel = Selector {
        parts: vec![vec![SimpleSelector::Class("main".into())]],
        steps: Vec::new(),
    };
    assert_eq!(compute_specificity(&sel), (0, 1, 0));

    let sel = Selector {
        parts: vec![vec![SimpleSelector::Id("header".into())]],
        steps: Vec::new(),
    };
    assert_eq!(compute_specificity(&sel), (1, 0, 0));

    let sel = Selector {
        parts: vec![vec![
            SimpleSelector::Tag("div".into()),
            SimpleSelector::Class("main".into()),
            SimpleSelector::Id("hero".into()),
        ]],
        steps: Vec::new(),
    };
    assert_eq!(compute_specificity(&sel), (1, 1, 1));

    let sel = Selector {
        parts: vec![
            vec![SimpleSelector::Tag("div".into())],
            vec![SimpleSelector::Tag("p".into())],
        ],
        steps: Vec::new(),
    };
    assert_eq!(compute_specificity(&sel), (0, 0, 2));
}

#[test]
fn pseudo_classes_count_as_classes_and_universal_counts_nothing() {
    let sel = Selector {
        parts: vec![vec![
            SimpleSelector::Universal,
            SimpleSelector::PseudoClass("hover".into()),
            SimpleSelector::Class("a".into()),
        ]],
        steps: Vec::new(),
    };
    assert_eq!(compute_specificity(&sel), (0, 2, 0));
}

#[test]
fn user_agent_display_defaults() {
    for tag in ["aside", "blockquote", "pre", "figure", "details", "summary", "DIV", "Hr"] {
        assert!(is_default_block_tag(tag), "{tag} should have display: block by default");
    }
    assert!(!is_default_block_tag("span"));
    for tag in ["img", "input", "button", "IFRAME"] {
        assert!(is_default_inline_block_tag(tag));
    }
    assert!(!is_default_inline_block_tag("div"));
}

#[test]
fn strip_important_variants() {
    assert_eq!(strip_important("red !important"), ("red".to_string(), true));
    assert_eq!(strip_important("  red ! important "), ("red".to_string(), true));
    assert_eq!(strip_important("red important"), ("red important".to_string(), false));
    assert_eq!(strip_important(" blue "), ("blue".to_string(), false));
    assert_eq!(strip_important("!important"), ("".to_string(), true));
}

#[test]
fn inline_style_declarations() {
    assert_eq!(
        parse_inline_style("color: red; font-size: 20px"),
        vec![
            ("color".to_string(), "red".to_string()),
            ("font-size".to_string(), "20px".to_string())
        ]
    );
    assert_eq!(
        parse_inline_style(" COLOR : Green ;; nocolon; :x; y: ; a:b:c"),
        vec![
            ("color".to_string(), "Green".to_string()),
            ("a".to_string(), "b:c".to_string())
        ]
    );
    assert!(parse_inline_style("").is_empty());
}

#[test]
fn var_arguments_split_at_top_level_comma() {
    assert_eq!(
        split_var_args("--x, calc(1px + 2px)"),
        ("--x", Some("calc(1px + 2px)".to_string()))
    );
    assert_eq!(split_var_args(" --y "), ("--y", None));
    assert_eq!(
        split_var_args("--z, f(a, b), c"),
        ("--z", Some("f(a, b), c".to_string()))
    );
    assert_eq!(split_var_args("f(a, b)"), ("f(a, b)", None));
}

#[test]
fn inline_origin_ranks_above_author() {
    assert!(Origin::Author < Origin::Inline);
}
