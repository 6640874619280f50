use asteria::properties::{
    all_properties, expand_shorthand, is_inherited, is_shorthand, property_from_name,
    property_id_to_name, PropertyId,
};

#[test]
fn test_inherited_properties() {
    assert!(is_inherited(PropertyId::Color));
    assert!(is_inherited(PropertyId::FontSize));
    assert!(is_inherited(PropertyId::FontWeight));
    assert!(is_inherited(PropertyId::TextAlign));
    assert!(is_inherited(PropertyId::LineHeight));
}

#[test]
fn test_non_inherited_properties() {
    assert!(!is_inherited(PropertyId::Display));
    assert!(!is_inherited(PropertyId::Position));
    assert!(!is_inherited(PropertyId::ZIndex));
    assert!(!is_inherited(PropertyId::MarginTop));
    assert!(!is_inherited(PropertyId::PaddingTop));
    assert!(!is_inherited(PropertyId::Width));
    assert!(!is_inherited(PropertyId::BackgroundColor));
    assert!(!is_inherited(PropertyId::Top));
    assert!(!is_inherited(PropertyId::FlexDirection));
}

#[test]
fn test_property_from_name() {
    assert_eq!(property_from_name("color"), Some(PropertyId::Color));
    assert_eq!(property_from_name("display"), Some(PropertyId::Display));
    assert_eq!(property_from_name("position"), Some(PropertyId::Position));
    assert_eq!(property_from_name("top"), Some(PropertyId::Top));
    assert_eq!(
        property_from_name("flex-direction"),
        Some(PropertyId::FlexDirection)
    );
    assert_eq!(
        property_from_name("justify-content"),
        Some(PropertyId::JustifyContent)
    );
    assert_eq!(property_from_name("z-index"), Some(PropertyId::ZIndex));
    assert_eq!(property_from_name("font-size"), Some(PropertyId::FontSize));
    assert_eq!(property_from_name("unknown-prop"), None);
    assert_eq!(PropertyId::ZIndex.name(), "z-index");
    assert_eq!(PropertyId::Top.name(), "top");
    assert_eq!(PropertyId::FlexDirection.name(), "flex-direction");
}

#[test]
fn test_shorthand_detection() {
    assert!(is_shorthand("margin"));
    assert!(is_shorthand("padding"));
    assert!(!is_shorthand("color"));
    assert!(!is_shorthand("margin-top"));
}

#[test]
fn test_shorthand_expansion() {
    let margin = expand_shorthand("margin").unwrap();
    assert_eq!(margin[0], PropertyId::MarginTop);
    assert_eq!(margin[1], PropertyId::MarginRight);
    assert_eq!(margin[2], PropertyId::MarginBottom);
    assert_eq!(margin[3], PropertyId::MarginLeft);
}

#[test]
fn test_shorthand_api_contract() {
    for name in &["margin", "padding"] {
        assert!(is_shorthand(name), "{name} should be a shorthand");
        assert!(
            expand_shorthand(name).is_some(),
            "{name} must have expand_shorthand implementation"
        );
    }
    assert!(
        !is_shorthand("border"),
        "border is handled separately, not via is_shorthand"
    );
}

#[test]
fn test_all_properties_covered() {
    let props = all_properties();
    for &prop in props.iter() {
        let _ = is_inherited(prop);
    }
    assert_eq!(props.len(), 60);
}

#[test]
fn every_property_name_round_trips() {
    for &prop in all_properties().iter() {
        let name = property_id_to_name(prop);
        assert_eq!(property_from_name(name), Some(prop));
        assert_eq!(PropertyId::from_name(name), Some(prop));
        assert_eq!(prop.is_inherited(), is_inherited(prop));
    }
}

#[test]
fn padding_expands_in_box_order() {
    let padding = expand_shorthand("padding").unwrap();
    assert_eq!(
        padding,
        [
            PropertyId::PaddingTop,
            PropertyId::PaddingRight,
            PropertyId::PaddingBottom,
            PropertyId::PaddingLeft
        ]
    );
    assert!(expand_shorthand("border").is_none());
    assert!(expand_shorthand("Margin").is_none());
}
