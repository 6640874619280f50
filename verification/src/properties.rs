//! The registry of CSS properties the engine supports: one identifier per
//! longhand property, whether it inherits, its canonical name, and the
//! shorthands that expand into longhands.

use vstd::prelude::*;

use crate::text::str_eq;

verus! {

/// Every CSS property the engine knows; each variant is one longhand.
#[derive(Debug, Clone, Copy, PartialEq, Eq, Hash, Structural)]
pub enum PropertyId {
    Display,
    Position,
    ZIndex,
    Width,
    Height,
    BoxSizing,
    Top,
    Right,
    Bottom,
    Left,
    MarginTop,
    MarginRight,
    MarginBottom,
    MarginLeft,
    PaddingTop,
    PaddingRight,
    PaddingBottom,
    PaddingLeft,
    BorderTopWidth,
    BorderRightWidth,
    BorderBottomWidth,
    BorderLeftWidth,
    BorderColor,
    BorderStyle,
    Color,
    BackgroundColor,
    FontSize,
    FontWeight,
    TextAlign,
    LineHeight,
    FlexDirection,
    FlexWrap,
    JustifyContent,
    AlignItems,
    AlignSelf,
    FlexGrow,
    FlexShrink,
    FlexBasis,
    GridTemplateColumns,
    GridTemplateRows,
    GridColumn,
    GridRow,
    GridColumnStart,
    GridColumnEnd,
    GridRowStart,
    GridRowEnd,
    GridGap,
    RowGap,
    ColumnGap,
    AnimationName,
    AnimationDuration,
    AnimationTimingFunction,
    AnimationIterationCount,
    BorderCollapse,
    BorderSpacing,
    VerticalAlign,
    Opacity,
    BorderRadius,
    BoxShadow,
    Overflow,
}

/// All known property identifiers, in declaration order.
pub open spec fn spec_all_properties() -> Seq<PropertyId> {
    seq![
        PropertyId::Display,
        PropertyId::Position,
        PropertyId::ZIndex,
        PropertyId::Width,
        PropertyId::Height,
        PropertyId::BoxSizing,
        PropertyId::Top,
        PropertyId::Right,
        PropertyId::Bottom,
        PropertyId::Left,
        PropertyId::MarginTop,
        PropertyId::MarginRight,
        PropertyId::MarginBottom,
        PropertyId::MarginLeft,
        PropertyId::PaddingTop,
        PropertyId::PaddingRight,
        PropertyId::PaddingBottom,
        PropertyId::PaddingLeft,
        PropertyId::BorderTopWidth,
        PropertyId::BorderRightWidth,
        PropertyId::BorderBottomWidth,
        PropertyId::BorderLeftWidth,
        PropertyId::BorderColor,
        PropertyId::BorderStyle,
        PropertyId::Color,
        PropertyId::BackgroundColor,
        PropertyId::FontSize,
        PropertyId::FontWeight,
        PropertyId::TextAlign,
        PropertyId::LineHeight,
        PropertyId::FlexDirection,
        PropertyId::FlexWrap,
        PropertyId::JustifyContent,
        PropertyId::AlignItems,
        PropertyId::AlignSelf,
        PropertyId::FlexGrow,
        PropertyId::FlexShrink,
        PropertyId::FlexBasis,
        PropertyId::GridTemplateColumns,
        PropertyId::GridTemplateRows,
        PropertyId::GridColumn,
        PropertyId::GridRow,
        PropertyId::GridColumnStart,
        PropertyId::GridColumnEnd,
        PropertyId::GridRowStart,
        PropertyId::GridRowEnd,
        PropertyId::GridGap,
        PropertyId::RowGap,
        PropertyId::ColumnGap,
        PropertyId::AnimationName,
        PropertyId::AnimationDuration,
        PropertyId::AnimationTimingFunction,
        PropertyId::AnimationIterationCount,
        PropertyId::BorderCollapse,
        PropertyId::BorderSpacing,
        PropertyId::VerticalAlign,
        PropertyId::Opacity,
        PropertyId::BorderRadius,
        PropertyId::BoxShadow,
        PropertyId::Overflow
    ]
}

/// All known property identifiers, in declaration order (for the defaulting
/// pass that visits every property).
pub fn all_properties() -> (res: Vec<PropertyId>)
    ensures
        res@ == spec_all_properties(),
{
    let v: Vec<PropertyId> = vec![
        PropertyId::Display,
        PropertyId::Position,
        PropertyId::ZIndex,
        PropertyId::Width,
        PropertyId::Height,
        PropertyId::BoxSizing,
        PropertyId::Top,
        PropertyId::Right,
        PropertyId::Bottom,
        PropertyId::Left,
        PropertyId::MarginTop,
        PropertyId::MarginRight,
        PropertyId::MarginBottom,
        PropertyId::MarginLeft,
        PropertyId::PaddingTop,
        PropertyId::PaddingRight,
        PropertyId::PaddingBottom,
        PropertyId::PaddingLeft,
        PropertyId::BorderTopWidth,
        PropertyId::BorderRightWidth,
        PropertyId::BorderBottomWidth,
        PropertyId::BorderLeftWidth,
        PropertyId::BorderColor,
        PropertyId::BorderStyle,
        PropertyId::Color,
        PropertyId::BackgroundColor,
        PropertyId::FontSize,
        PropertyId::FontWeight,
        PropertyId::TextAlign,
        PropertyId::LineHeight,
        PropertyId::FlexDirection,
        PropertyId::FlexWrap,
        PropertyId::JustifyContent,
        PropertyId::AlignItems,
        PropertyId::AlignSelf,
        PropertyId::FlexGrow,
        PropertyId::FlexShrink,
        PropertyId::FlexBasis,
        PropertyId::GridTemplateColumns,
        PropertyId::GridTemplateRows,
        PropertyId::GridColumn,
        PropertyId::GridRow,
        PropertyId::GridColumnStart,
        PropertyId::GridColumnEnd,
        PropertyId::GridRowStart,
        PropertyId::GridRowEnd,
        PropertyId::GridGap,
        PropertyId::RowGap,
        PropertyId::ColumnGap,
        PropertyId::AnimationName,
        PropertyId::AnimationDuration,
        PropertyId::AnimationTimingFunction,
        PropertyId::AnimationIterationCount,
        PropertyId::BorderCollapse,
        PropertyId::BorderSpacing,
        PropertyId::VerticalAlign,
        PropertyId::Opacity,
        PropertyId::BorderRadius,
        PropertyId::BoxShadow,
        PropertyId::Overflow,
    ];
    assert(v@ =~= spec_all_properties());
    v
}

/// Whether a property inherits by default: color, font-size, font-weight,
/// text-align, line-height, border-collapse and border-spacing do; every
/// other property resets to its initial value.
pub open spec fn spec_is_inherited(id: PropertyId) -> bool {
    match id {
        PropertyId::Color => true,
        PropertyId::FontSize => true,
        PropertyId::FontWeight => true,
        PropertyId::TextAlign => true,
        PropertyId::LineHeight => true,
        PropertyId::BorderCollapse => true,
        PropertyId::BorderSpacing => true,
        _ => false,
    }
}

pub fn is_inherited(id: PropertyId) -> (res: bool)
    ensures
        res == spec_is_inherited(id),
{
    match id {
        PropertyId::Display => false,
        PropertyId::Position => false,
        PropertyId::ZIndex => false,
        PropertyId::Width => false,
        PropertyId::Height => false,
        PropertyId::BoxSizing => false,
        PropertyId::Top => false,
        PropertyId::Right => false,
        PropertyId::Bottom => false,
        PropertyId::Left => false,
        PropertyId::MarginTop => false,
        PropertyId::MarginRight => false,
        PropertyId::MarginBottom => false,
        PropertyId::MarginLeft => false,
        PropertyId::PaddingTop => false,
        PropertyId::PaddingRight => false,
        PropertyId::PaddingBottom => false,
        PropertyId::PaddingLeft => false,
        PropertyId::BorderTopWidth => false,
        PropertyId::BorderRightWidth => false,
        PropertyId::BorderBottomWidth => false,
        PropertyId::BorderLeftWidth => false,
        PropertyId::BorderColor => false,
        PropertyId::BorderStyle => false,
        PropertyId::Color => true,
        PropertyId::BackgroundColor => false,
        PropertyId::FontSize => true,
        PropertyId::FontWeight => true,
        PropertyId::TextAlign => true,
        PropertyId::LineHeight => true,
        PropertyId::FlexDirection => false,
        PropertyId::FlexWrap => false,
        PropertyId::JustifyContent => false,
        PropertyId::AlignItems => false,
        PropertyId::AlignSelf => false,
        PropertyId::FlexGrow => false,
        PropertyId::FlexShrink => false,
        PropertyId::FlexBasis => false,
        PropertyId::GridTemplateColumns => false,
        PropertyId::GridTemplateRows => false,
        PropertyId::GridColumn => false,
        PropertyId::GridRow => false,
        PropertyId::GridColumnStart => false,
        PropertyId::GridColumnEnd => false,
        PropertyId::GridRowStart => false,
        PropertyId::GridRowEnd => false,
        PropertyId::GridGap => false,
        PropertyId::RowGap => false,
        PropertyId::ColumnGap => false,
        PropertyId::AnimationName => false,
        PropertyId::AnimationDuration => false,
        PropertyId::AnimationTimingFunction => false,
        PropertyId::AnimationIterationCount => false,
        PropertyId::BorderCollapse => true,
        PropertyId::BorderSpacing => true,
        PropertyId::VerticalAlign => false,
        PropertyId::Opacity => false,
        PropertyId::BorderRadius => false,
        PropertyId::BoxShadow => false,
        PropertyId::Overflow => false,
    }
}

/// The canonical CSS name of a property.
pub open spec fn spec_property_name(id: PropertyId) -> Seq<char> {
    match id {
        PropertyId::Display => "display"@,
        PropertyId::Position => "position"@,
        PropertyId::ZIndex => "z-index"@,
        PropertyId::Width => "width"@,
        PropertyId::Height => "height"@,
        PropertyId::BoxSizing => "box-sizing"@,
        PropertyId::Top => "top"@,
        PropertyId::Right => "right"@,
        PropertyId::Bottom => "bottom"@,
        PropertyId::Left => "left"@,
        PropertyId::MarginTop => "margin-top"@,
        PropertyId::MarginRight => "margin-right"@,
        PropertyId::MarginBottom => "margin-bottom"@,
        PropertyId::MarginLeft => "margin-left"@,
        PropertyId::PaddingTop => "padding-top"@,
        PropertyId::PaddingRight => "padding-right"@,
        PropertyId::PaddingBottom => "padding-bottom"@,
        PropertyId::PaddingLeft => "padding-left"@,
        PropertyId::BorderTopWidth => "border-top-width"@,
        PropertyId::BorderRightWidth => "border-right-width"@,
        PropertyId::BorderBottomWidth => "border-bottom-width"@,
        PropertyId::BorderLeftWidth => "border-left-width"@,
        PropertyId::BorderColor => "border-color"@,
        PropertyId::BorderStyle => "border-style"@,
        PropertyId::Color => "color"@,
        PropertyId::BackgroundColor => "background-color"@,
        PropertyId::FontSize => "font-size"@,
        PropertyId::FontWeight => "font-weight"@,
        PropertyId::TextAlign => "text-align"@,
        PropertyId::LineHeight => "line-height"@,
        PropertyId::FlexDirection => "flex-direction"@,
        PropertyId::FlexWrap => "flex-wrap"@,
        PropertyId::JustifyContent => "justify-content"@,
        PropertyId::AlignItems => "align-items"@,
        PropertyId::AlignSelf => "align-self"@,
        PropertyId::FlexGrow => "flex-grow"@,
        PropertyId::FlexShrink => "flex-shrink"@,
        PropertyId::FlexBasis => "flex-basis"@,
        PropertyId::GridTemplateColumns => "grid-template-columns"@,
        PropertyId::GridTemplateRows => "grid-template-rows"@,
        PropertyId::GridColumn => "grid-column"@,
        PropertyId::GridRow => "grid-row"@,
        PropertyId::GridColumnStart => "grid-column-start"@,
        PropertyId::GridColumnEnd => "grid-column-end"@,
        PropertyId::GridRowStart => "grid-row-start"@,
        PropertyId::GridRowEnd => "grid-row-end"@,
        PropertyId::GridGap => "grid-gap"@,
        PropertyId::RowGap => "row-gap"@,
        PropertyId::ColumnGap => "column-gap"@,
        PropertyId::AnimationName => "animation-name"@,
        PropertyId::AnimationDuration => "animation-duration"@,
        PropertyId::AnimationTimingFunction => "animation-timing-function"@,
        PropertyId::AnimationIterationCount => "animation-iteration-count"@,
        PropertyId::BorderCollapse => "border-collapse"@,
        PropertyId::BorderSpacing => "border-spacing"@,
        PropertyId::VerticalAlign => "vertical-align"@,
        PropertyId::Opacity => "opacity"@,
        PropertyId::BorderRadius => "border-radius"@,
        PropertyId::BoxShadow => "box-shadow"@,
        PropertyId::Overflow => "overflow"@,
    }
}

/// The property a CSS name denotes. `background` and `gap` are accepted as
/// aliases of `background-color` and `grid-gap`; shorthands such as
/// `margin`, `padding` and `flex`, and unknown names, give `None`.
pub open spec fn spec_property_from_name(s: Seq<char>) -> Option<PropertyId> {
    if s == "display"@ {
        Some(PropertyId::Display)
    }
    else if s == "position"@ {
        Some(PropertyId::Position)
    }
    else if s == "z-index"@ {
        Some(PropertyId::ZIndex)
    }
    else if s == "width"@ {
        Some(PropertyId::Width)
    }
    else if s == "height"@ {
        Some(PropertyId::Height)
    }
    else if s == "box-sizing"@ {
        Some(PropertyId::BoxSizing)
    }
    else if s == "top"@ {
        Some(PropertyId::Top)
    }
    else if s == "right"@ {
        Some(PropertyId::Right)
    }
    else if s == "bottom"@ {
        Some(PropertyId::Bottom)
    }
    else if s == "left"@ {
        Some(PropertyId::Left)
    }
    else if s == "margin-top"@ {
        Some(PropertyId::MarginTop)
    }
    else if s == "margin-right"@ {
        Some(PropertyId::MarginRight)
    }
    else if s == "margin-bottom"@ {
        Some(PropertyId::MarginBottom)
    }
    else if s == "margin-left"@ {
        Some(PropertyId::MarginLeft)
    }
    else if s == "padding-top"@ {
        Some(PropertyId::PaddingTop)
    }
    else if s == "padding-right"@ {
        Some(PropertyId::PaddingRight)
    }
    else if s == "padding-bottom"@ {
        Some(PropertyId::PaddingBottom)
    }
    else if s == "padding-left"@ {
        Some(PropertyId::PaddingLeft)
    }
    else if s == "border-top-width"@ {
        Some(PropertyId::BorderTopWidth)
    }
    else if s == "border-right-width"@ {
        Some(PropertyId::BorderRightWidth)
    }
    else if s == "border-bottom-width"@ {
        Some(PropertyId::BorderBottomWidth)
    }
    else if s == "border-left-width"@ {
        Some(PropertyId::BorderLeftWidth)
    }
    else if s == "border-color"@ {
        Some(PropertyId::BorderColor)
    }
    else if s == "border-style"@ {
        Some(PropertyId::BorderStyle)
    }
    else if s == "color"@ {
        Some(PropertyId::Color)
    }
    else if s == "background-color"@ {
        Some(PropertyId::BackgroundColor)
    }
    else if s == "background"@ {
        Some(PropertyId::BackgroundColor)
    }
    else if s == "font-size"@ {
        Some(PropertyId::FontSize)
    }
    else if s == "font-weight"@ {
        Some(PropertyId::FontWeight)
    }
    else if s == "text-align"@ {
        Some(PropertyId::TextAlign)
    }
    else if s == "line-height"@ {
        Some(PropertyId::LineHeight)
    }
    else if s == "flex-direction"@ {
        Some(PropertyId::FlexDirection)
    }
    else if s == "flex-wrap"@ {
        Some(PropertyId::FlexWrap)
    }
    else if s == "justify-content"@ {
        Some(PropertyId::JustifyContent)
    }
    else if s == "align-items"@ {
        Some(PropertyId::AlignItems)
    }
    else if s == "align-self"@ {
        Some(PropertyId::AlignSelf)
    }
    else if s == "flex-grow"@ {
        Some(PropertyId::FlexGrow)
    }
    else if s == "flex-shrink"@ {
        Some(PropertyId::FlexShrink)
    }
    else if s == "flex-basis"@ {
        Some(PropertyId::FlexBasis)
    }
    else if s == "grid-template-columns"@ {
        Some(PropertyId::GridTemplateColumns)
    }
    else if s == "grid-template-rows"@ {
        Some(PropertyId::GridTemplateRows)
    }
    else if s == "grid-column"@ {
        Some(PropertyId::GridColumn)
    }
    else if s == "grid-row"@ {
        Some(PropertyId::GridRow)
    }
    else if s == "grid-column-start"@ {
        Some(PropertyId::GridColumnStart)
    }
    else if s == "grid-column-end"@ {
        Some(PropertyId::GridColumnEnd)
    }
    else if s == "grid-row-start"@ {
        Some(PropertyId::GridRowStart)
    }
    else if s == "grid-row-end"@ {
        Some(PropertyId::GridRowEnd)
    }
    else if s == "grid-gap"@ {
        Some(PropertyId::GridGap)
    }
    else if s == "gap"@ {
        Some(PropertyId::GridGap)
    }
    else if s == "row-gap"@ {
        Some(PropertyId::RowGap)
    }
    else if s == "column-gap"@ {
        Some(PropertyId::ColumnGap)
    }
    else if s == "animation-name"@ {
        Some(PropertyId::AnimationName)
    }
    else if s == "animation-duration"@ {
        Some(PropertyId::AnimationDuration)
    }
    else if s == "animation-timing-function"@ {
        Some(PropertyId::AnimationTimingFunction)
    }
    else if s == "animation-iteration-count"@ {
        Some(PropertyId::AnimationIterationCount)
    }
    else if s == "border-collapse"@ {
        Some(PropertyId::BorderCollapse)
    }
    else if s == "border-spacing"@ {
        Some(PropertyId::BorderSpacing)
    }
    else if s == "vertical-align"@ {
        Some(PropertyId::VerticalAlign)
    }
    else if s == "opacity"@ {
        Some(PropertyId::Opacity)
    }
    else if s == "border-radius"@ {
        Some(PropertyId::BorderRadius)
    }
    else if s == "box-shadow"@ {
        Some(PropertyId::BoxShadow)
    }
    else if s == "overflow"@ {
        Some(PropertyId::Overflow)
    }
    else {
        None
    }
}

impl PropertyId {
    /// The canonical CSS property name.
    pub fn name(self) -> (res: &'static str)
        ensures
            res@ == spec_property_name(self),
    {
        property_id_to_name(self)
    }

    /// The property a CSS name denotes, if any.
    pub fn from_name(name: &str) -> (res: Option<PropertyId>)
        ensures
            res == spec_property_from_name(name@),
    {
        property_from_name(name)
    }

    /// Whether the property inherits by default.
    pub fn is_inherited(self) -> (res: bool)
        ensures
            res == spec_is_inherited(self),
    {
        is_inherited(self)
    }
}

/// Map a CSS property name to its identifier; `None` for unknown names and
/// for shorthands, which are expanded during value computation.
pub fn property_from_name(name: &str) -> (res: Option<PropertyId>)
    ensures
        res == spec_property_from_name(name@),
{
    if str_eq(name, "display") {
        return Some(PropertyId::Display);
    }
    if str_eq(name, "position") {
        return Some(PropertyId::Position);
    }
    if str_eq(name, "z-index") {
        return Some(PropertyId::ZIndex);
    }
    if str_eq(name, "width") {
        return Some(PropertyId::Width);
    }
    if str_eq(name, "height") {
        return Some(PropertyId::Height);
    }
    if str_eq(name, "box-sizing") {
        return Some(PropertyId::BoxSizing);
    }
    if str_eq(name, "top") {
        return Some(PropertyId::Top);
    }
    if str_eq(name, "right") {
        return Some(PropertyId::Right);
    }
    if str_eq(name, "bottom") {
        return Some(PropertyId::Bottom);
    }
    if str_eq(name, "left") {
        return Some(PropertyId::Left);
    }
    if str_eq(name, "margin-top") {
        return Some(PropertyId::MarginTop);
    }
    if str_eq(name, "margin-right") {
        return Some(PropertyId::MarginRight);
    }
    if str_eq(name, "margin-bottom") {
        return Some(PropertyId::MarginBottom);
    }
    if str_eq(name, "margin-left") {
        return Some(PropertyId::MarginLeft);
    }
    if str_eq(name, "padding-top") {
        return Some(PropertyId::PaddingTop);
    }
    if str_eq(name, "padding-right") {
        return Some(PropertyId::PaddingRight);
    }
    if str_eq(name, "padding-bottom") {
        return Some(PropertyId::PaddingBottom);
    }
    if str_eq(name, "padding-left") {
        return Some(PropertyId::PaddingLeft);
    }
    if str_eq(name, "border-top-width") {
        return Some(PropertyId::BorderTopWidth);
    }
    if str_eq(name, "border-right-width") {
        return Some(PropertyId::BorderRightWidth);
    }
    if str_eq(name, "border-bottom-width") {
        return Some(PropertyId::BorderBottomWidth);
    }
    if str_eq(name, "border-left-width") {
        return Some(PropertyId::BorderLeftWidth);
    }
    if str_eq(name, "border-color") {
        return Some(PropertyId::BorderColor);
    }
    if str_eq(name, "border-style") {
        return Some(PropertyId::BorderStyle);
    }
    if str_eq(name, "color") {
        return Some(PropertyId::Color);
    }
    if str_eq(name, "background-color") {
        return Some(PropertyId::BackgroundColor);
    }
    if str_eq(name, "background") {
        return Some(PropertyId::BackgroundColor);
    }
    if str_eq(name, "font-size") {
        return Some(PropertyId::FontSize);
    }
    if str_eq(name, "font-weight") {
        return Some(PropertyId::FontWeight);
    }
    if str_eq(name, "text-align") {
        return Some(PropertyId::TextAlign);
    }
    if str_eq(name, "line-height") {
        return Some(PropertyId::LineHeight);
    }
    if str_eq(name, "flex-direction") {
        return Some(PropertyId::FlexDirection);
    }
    if str_eq(name, "flex-wrap") {
        return Some(PropertyId::FlexWrap);
    }
    if str_eq(name, "justify-content") {
        return Some(PropertyId::JustifyContent);
    }
    if str_eq(name, "align-items") {
        return Some(PropertyId::AlignItems);
    }
    if str_eq(name, "align-self") {
        return Some(PropertyId::AlignSelf);
    }
    if str_eq(name, "flex-grow") {
        return Some(PropertyId::FlexGrow);
    }
    if str_eq(name, "flex-shrink") {
        return Some(PropertyId::FlexShrink);
    }
    if str_eq(name, "flex-basis") {
        return Some(PropertyId::FlexBasis);
    }
    if str_eq(name, "grid-template-columns") {
        return Some(PropertyId::GridTemplateColumns);
    }
    if str_eq(name, "grid-template-rows") {
        return Some(PropertyId::GridTemplateRows);
    }
    if str_eq(name, "grid-column") {
        return Some(PropertyId::GridColumn);
    }
    if str_eq(name, "grid-row") {
        return Some(PropertyId::GridRow);
    }
    if str_eq(name, "grid-column-start") {
        return Some(PropertyId::GridColumnStart);
    }
    if str_eq(name, "grid-column-end") {
        return Some(PropertyId::GridColumnEnd);
    }
    if str_eq(name, "grid-row-start") {
        return Some(PropertyId::GridRowStart);
    }
    if str_eq(name, "grid-row-end") {
        return Some(PropertyId::GridRowEnd);
    }
    if str_eq(name, "grid-gap") {
        return Some(PropertyId::GridGap);
    }
    if str_eq(name, "gap") {
        return Some(PropertyId::GridGap);
    }
    if str_eq(name, "row-gap") {
        return Some(PropertyId::RowGap);
    }
    if str_eq(name, "column-gap") {
        return Some(PropertyId::ColumnGap);
    }
    if str_eq(name, "animation-name") {
        return Some(PropertyId::AnimationName);
    }
    if str_eq(name, "animation-duration") {
        return Some(PropertyId::AnimationDuration);
    }
    if str_eq(name, "animation-timing-function") {
        return Some(PropertyId::AnimationTimingFunction);
    }
    if str_eq(name, "animation-iteration-count") {
        return Some(PropertyId::AnimationIterationCount);
    }
    if str_eq(name, "border-collapse") {
        return Some(PropertyId::BorderCollapse);
    }
    if str_eq(name, "border-spacing") {
        return Some(PropertyId::BorderSpacing);
    }
    if str_eq(name, "vertical-align") {
        return Some(PropertyId::VerticalAlign);
    }
    if str_eq(name, "opacity") {
        return Some(PropertyId::Opacity);
    }
    if str_eq(name, "border-radius") {
        return Some(PropertyId::BorderRadius);
    }
    if str_eq(name, "box-shadow") {
        return Some(PropertyId::BoxShadow);
    }
    if str_eq(name, "overflow") {
        return Some(PropertyId::Overflow);
    }
    None
}

/// Map a property identifier back to its canonical CSS name.
pub fn property_id_to_name(id: PropertyId) -> (res: &'static str)
    ensures
        res@ == spec_property_name(id),
{
    match id {
        PropertyId::Display => "display",
        PropertyId::Position => "position",
        PropertyId::ZIndex => "z-index",
        PropertyId::Width => "width",
        PropertyId::Height => "height",
        PropertyId::BoxSizing => "box-sizing",
        PropertyId::Top => "top",
        PropertyId::Right => "right",
        PropertyId::Bottom => "bottom",
        PropertyId::Left => "left",
        PropertyId::MarginTop => "margin-top",
        PropertyId::MarginRight => "margin-right",
        PropertyId::MarginBottom => "margin-bottom",
        PropertyId::MarginLeft => "margin-left",
        PropertyId::PaddingTop => "padding-top",
        PropertyId::PaddingRight => "padding-right",
        PropertyId::PaddingBottom => "padding-bottom",
        PropertyId::PaddingLeft => "padding-left",
        PropertyId::BorderTopWidth => "border-top-width",
        PropertyId::BorderRightWidth => "border-right-width",
        PropertyId::BorderBottomWidth => "border-bottom-width",
        PropertyId::BorderLeftWidth => "border-left-width",
        PropertyId::BorderColor => "border-color",
        PropertyId::BorderStyle => "border-style",
        PropertyId::Color => "color",
        PropertyId::BackgroundColor => "background-color",
        PropertyId::FontSize => "font-size",
        PropertyId::FontWeight => "font-weight",
        PropertyId::TextAlign => "text-align",
        PropertyId::LineHeight => "line-height",
        PropertyId::FlexDirection => "flex-direction",
        PropertyId::FlexWrap => "flex-wrap",
        PropertyId::JustifyContent => "justify-content",
        PropertyId::AlignItems => "align-items",
        PropertyId::AlignSelf => "align-self",
        PropertyId::FlexGrow => "flex-grow",
        PropertyId::FlexShrink => "flex-shrink",
        PropertyId::FlexBasis => "flex-basis",
        PropertyId::GridTemplateColumns => "grid-template-columns",
        PropertyId::GridTemplateRows => "grid-template-rows",
        PropertyId::GridColumn => "grid-column",
        PropertyId::GridRow => "grid-row",
        PropertyId::GridColumnStart => "grid-column-start",
        PropertyId::GridColumnEnd => "grid-column-end",
        PropertyId::GridRowStart => "grid-row-start",
        PropertyId::GridRowEnd => "grid-row-end",
        PropertyId::GridGap => "grid-gap",
        PropertyId::RowGap => "row-gap",
        PropertyId::ColumnGap => "column-gap",
        PropertyId::AnimationName => "animation-name",
        PropertyId::AnimationDuration => "animation-duration",
        PropertyId::AnimationTimingFunction => "animation-timing-function",
        PropertyId::AnimationIterationCount => "animation-iteration-count",
        PropertyId::BorderCollapse => "border-collapse",
        PropertyId::BorderSpacing => "border-spacing",
        PropertyId::VerticalAlign => "vertical-align",
        PropertyId::Opacity => "opacity",
        PropertyId::BorderRadius => "border-radius",
        PropertyId::BoxShadow => "box-shadow",
        PropertyId::Overflow => "overflow",
    }
}

/// The shorthands handled by `expand_shorthand`: `margin` and `padding`.
pub open spec fn spec_is_shorthand(s: Seq<char>) -> bool {
    s == "margin"@ || s == "padding"@
}

/// The longhands a shorthand expands into, in CSS order: top, right,
/// bottom, left.
pub open spec fn spec_expand_shorthand(s: Seq<char>) -> Option<[PropertyId; 4]> {
    if s == "margin"@ {
        Some([PropertyId::MarginTop, PropertyId::MarginRight, PropertyId::MarginBottom, PropertyId::MarginLeft])
    } else if s == "padding"@ {
        Some([PropertyId::PaddingTop, PropertyId::PaddingRight, PropertyId::PaddingBottom, PropertyId::PaddingLeft])
    } else {
        None
    }
}

/// Is the name a shorthand that `expand_shorthand` expands?
pub fn is_shorthand(name: &str) -> (res: bool)
    ensures
        res == spec_is_shorthand(name@),
{
    str_eq(name, "margin") || str_eq(name, "padding")
}

/// Expand `margin` or `padding` into its four longhands.
pub fn expand_shorthand(name: &str) -> (res: Option<[PropertyId; 4]>)
    ensures
        res == spec_expand_shorthand(name@),
{
    if str_eq(name, "margin") {
        Some([PropertyId::MarginTop, PropertyId::MarginRight, PropertyId::MarginBottom, PropertyId::MarginLeft])
    } else if str_eq(name, "padding") {
        Some([PropertyId::PaddingTop, PropertyId::PaddingRight, PropertyId::PaddingBottom, PropertyId::PaddingLeft])
    } else {
        None
    }
}

/// Every name that `is_shorthand` accepts has an expansion.
pub proof fn lemma_shorthand_has_expansion(s: Seq<char>)
    requires
        spec_is_shorthand(s),
    ensures
        spec_expand_shorthand(s) is Some,
{
}

/// Looking up the canonical name of a property gives the property back.
#[verifier::rlimit(100)]
pub proof fn lemma_name_round_trip(id: PropertyId)
    ensures
        spec_property_from_name(spec_property_name(id)) == Some(id),
{
    reveal_strlit("display");
    reveal_strlit("position");
    reveal_strlit("z-index");
    reveal_strlit("width");
    reveal_strlit("height");
    reveal_strlit("box-sizing");
    reveal_strlit("top");
    reveal_strlit("right");
    reveal_strlit("bottom");
    reveal_strlit("left");
    reveal_strlit("margin-top");
    reveal_strlit("margin-right");
    reveal_strlit("margin-bottom");
    reveal_strlit("margin-left");
    reveal_strlit("padding-top");
    reveal_strlit("padding-right");
    reveal_strlit("padding-bottom");
    reveal_strlit("padding-left");
    reveal_strlit("border-top-width");
    reveal_strlit("border-right-width");
    reveal_strlit("border-bottom-width");
    reveal_strlit("border-left-width");
    reveal_strlit("border-color");
    reveal_strlit("border-style");
    reveal_strlit("color");
    reveal_strlit("background-color");
    reveal_strlit("background");
    reveal_strlit("font-size");
    reveal_strlit("font-weight");
    reveal_strlit("text-align");
    reveal_strlit("line-height");
    reveal_strlit("flex-direction");
    reveal_strlit("flex-wrap");
    reveal_strlit("justify-content");
    reveal_strlit("align-items");
    reveal_strlit("align-self");
    reveal_strlit("flex-grow");
    reveal_strlit("flex-shrink");
    reveal_strlit("flex-basis");
    reveal_strlit("grid-template-columns");
    reveal_strlit("grid-template-rows");
    reveal_strlit("grid-column");
    reveal_strlit("grid-row");
    reveal_strlit("grid-column-start");
    reveal_strlit("grid-column-end");
    reveal_strlit("grid-row-start");
    reveal_strlit("grid-row-end");
    reveal_strlit("grid-gap");
    reveal_strlit("gap");
    reveal_strlit("row-gap");
    reveal_strlit("column-gap");
    reveal_strlit("animation-name");
    reveal_strlit("animation-duration");
    reveal_strlit("animation-timing-function");
    reveal_strlit("animation-iteration-count");
    reveal_strlit("border-collapse");
    reveal_strlit("border-spacing");
    reveal_strlit("vertical-align");
    reveal_strlit("opacity");
    reveal_strlit("border-radius");
    reveal_strlit("box-shadow");
    reveal_strlit("overflow");
    assert("display"@.len() == 7);
    assert("position"@.len() == 8);
    assert("z-index"@.len() == 7);
    assert("width"@.len() == 5);
    assert("height"@.len() == 6);
    assert("box-sizing"@.len() == 10);
    assert("top"@.len() == 3);
    assert("right"@.len() == 5);
    assert("bottom"@.len() == 6);
    assert("left"@.len() == 4);
    assert("margin-top"@.len() == 10);
    assert("margin-right"@.len() == 12);
    assert("margin-bottom"@.len() == 13);
    assert("margin-left"@.len() == 11);
    assert("padding-top"@.len() == 11);
    assert("padding-right"@.len() == 13);
    assert("padding-bottom"@.len() == 14);
    assert("padding-left"@.len() == 12);
    assert("border-top-width"@.len() == 16);
    assert("border-right-width"@.len() == 18);
    assert("border-bottom-width"@.len() == 19);
    assert("border-left-width"@.len() == 17);
    assert("border-color"@.len() == 12);
    assert("border-style"@.len() == 12);
    assert("color"@.len() == 5);
    assert("background-color"@.len() == 16);
    assert("background"@.len() == 10);
    assert("font-size"@.len() == 9);
    assert("font-weight"@.len() == 11);
    assert("text-align"@.len() == 10);
    assert("line-height"@.len() == 11);
    assert("flex-direction"@.len() == 14);
    assert("flex-wrap"@.len() == 9);
    assert("justify-content"@.len() == 15);
    assert("align-items"@.len() == 11);
    assert("align-self"@.len() == 10);
    assert("flex-grow"@.len() == 9);
    assert("flex-shrink"@.len() == 11);
    assert("flex-basis"@.len() == 10);
    assert("grid-template-columns"@.len() == 21);
    assert("grid-template-rows"@.len() == 18);
    assert("grid-column"@.len() == 11);
    assert("grid-row"@.len() == 8);
    assert("grid-column-start"@.len() == 17);
    assert("grid-column-end"@.len() == 15);
    assert("grid-row-start"@.len() == 14);
    assert("grid-row-end"@.len() == 12);
    assert("grid-gap"@.len() == 8);
    assert("gap"@.len() == 3);
    assert("row-gap"@.len() == 7);
    assert("column-gap"@.len() == 10);
    assert("animation-name"@.len() == 14);
    assert("animation-duration"@.len() == 18);
    assert("animation-timing-function"@.len() == 25);
    assert("animation-iteration-count"@.len() == 25);
    assert("border-collapse"@.len() == 15);
    assert("border-spacing"@.len() == 14);
    assert("vertical-align"@.len() == 14);
    assert("opacity"@.len() == 7);
    assert("border-radius"@.len() == 13);
    assert("box-shadow"@.len() == 10);
    assert("overflow"@.len() == 8);
    match id {
        PropertyId::Display => {

        },
        PropertyId::Position => {

        },
        PropertyId::ZIndex => {
            assert("z-index"@[0] == 'z' && "display"@[0] == 'd');
        },
        PropertyId::Width => {

        },
        PropertyId::Height => {

        },
        PropertyId::BoxSizing => {

        },
        PropertyId::Top => {

        },
        PropertyId::Right => {
            assert("right"@[0] == 'r' && "width"@[0] == 'w');
        },
        PropertyId::Bottom => {
            assert("bottom"@[0] == 'b' && "height"@[0] == 'h');
        },
        PropertyId::Left => {

        },
        PropertyId::MarginTop => {
            assert("margin-top"@[0] == 'm' && "box-sizing"@[0] == 'b');
        },
        PropertyId::MarginRight => {

        },
        PropertyId::MarginBottom => {

        },
        PropertyId::MarginLeft => {

        },
        PropertyId::PaddingTop => {
            assert("padding-top"@[0] == 'p' && "margin-left"@[0] == 'm');
        },
        PropertyId::PaddingRight => {
            assert("padding-right"@[0] == 'p' && "margin-bottom"@[0] == 'm');
        },
        PropertyId::PaddingBottom => {

        },
        PropertyId::PaddingLeft => {
            assert("padding-left"@[0] == 'p' && "margin-right"@[0] == 'm');
        },
        PropertyId::BorderTopWidth => {

        },
        PropertyId::BorderRightWidth => {

        },
        PropertyId::BorderBottomWidth => {

        },
        PropertyId::BorderLeftWidth => {

        },
        PropertyId::BorderColor => {
            assert("border-color"@[0] == 'b' && "margin-right"@[0] == 'm');
            assert("border-color"@[0] == 'b' && "padding-left"@[0] == 'p');
        },
        PropertyId::BorderStyle => {
            assert("border-style"@[0] == 'b' && "margin-right"@[0] == 'm');
            assert("border-style"@[0] == 'b' && "padding-left"@[0] == 'p');
            assert("border-style"@[7] == 's' && "border-color"@[7] == 'c');
        },
        PropertyId::Color => {
            assert("color"@[0] == 'c' && "width"@[0] == 'w');
            assert("color"@[0] == 'c' && "right"@[0] == 'r');
        },
        PropertyId::BackgroundColor => {
            assert("background-color"@[1] == 'a' && "border-top-width"@[1] == 'o');
        },
        PropertyId::FontSize => {

        },
        PropertyId::FontWeight => {
            assert("font-weight"@[0] == 'f' && "margin-left"@[0] == 'm');
            assert("font-weight"@[0] == 'f' && "padding-top"@[0] == 'p');
        },
        PropertyId::TextAlign => {
            assert("text-align"@[0] == 't' && "box-sizing"@[0] == 'b');
            assert("text-align"@[0] == 't' && "margin-top"@[0] == 'm');
            assert("text-align"@[0] == 't' && "background"@[0] == 'b');
        },
        PropertyId::LineHeight => {
            assert("line-height"@[0] == 'l' && "margin-left"@[0] == 'm');
            assert("line-height"@[0] == 'l' && "padding-top"@[0] == 'p');
            assert("line-height"@[0] == 'l' && "font-weight"@[0] == 'f');
        },
        PropertyId::FlexDirection => {
            assert("flex-direction"@[0] == 'f' && "padding-bottom"@[0] == 'p');
        },
        PropertyId::FlexWrap => {
            assert("flex-wrap"@[1] == 'l' && "font-size"@[1] == 'o');
        },
        PropertyId::JustifyContent => {

        },
        PropertyId::AlignItems => {
            assert("align-items"@[0] == 'a' && "margin-left"@[0] == 'm');
            assert("align-items"@[0] == 'a' && "padding-top"@[0] == 'p');
            assert("align-items"@[0] == 'a' && "font-weight"@[0] == 'f');
            assert("align-items"@[0] == 'a' && "line-height"@[0] == 'l');
        },
        PropertyId::AlignSelf => {
            assert("align-self"@[0] == 'a' && "box-sizing"@[0] == 'b');
            assert("align-self"@[0] == 'a' && "margin-top"@[0] == 'm');
            assert("align-self"@[0] == 'a' && "background"@[0] == 'b');
            assert("align-self"@[0] == 'a' && "text-align"@[0] == 't');
        },
        PropertyId::FlexGrow => {
            assert("flex-grow"@[1] == 'l' && "font-size"@[1] == 'o');
            assert("flex-grow"@[5] == 'g' && "flex-wrap"@[5] == 'w');
        },
        PropertyId::FlexShrink => {
            assert("flex-shrink"@[0] == 'f' && "margin-left"@[0] == 'm');
            assert("flex-shrink"@[0] == 'f' && "padding-top"@[0] == 'p');
            assert("flex-shrink"@[1] == 'l' && "font-weight"@[1] == 'o');
            assert("flex-shrink"@[0] == 'f' && "line-height"@[0] == 'l');
            assert("flex-shrink"@[0] == 'f' && "align-items"@[0] == 'a');
        },
        PropertyId::FlexBasis => {
            assert("flex-basis"@[0] == 'f' && "box-sizing"@[0] == 'b');
            assert("flex-basis"@[0] == 'f' && "margin-top"@[0] == 'm');
            assert("flex-basis"@[0] == 'f' && "background"@[0] == 'b');
            assert("flex-basis"@[0] == 'f' && "text-align"@[0] == 't');
            assert("flex-basis"@[0] == 'f' && "align-self"@[0] == 'a');
        },
        PropertyId::GridTemplateColumns => {

        },
        PropertyId::GridTemplateRows => {
            assert("grid-template-rows"@[0] == 'g' && "border-right-width"@[0] == 'b');
        },
        PropertyId::GridColumn => {
            assert("grid-column"@[0] == 'g' && "margin-left"@[0] == 'm');
            assert("grid-column"@[0] == 'g' && "padding-top"@[0] == 'p');
            assert("grid-column"@[0] == 'g' && "font-weight"@[0] == 'f');
            assert("grid-column"@[0] == 'g' && "line-height"@[0] == 'l');
            assert("grid-column"@[0] == 'g' && "align-items"@[0] == 'a');
            assert("grid-column"@[0] == 'g' && "flex-shrink"@[0] == 'f');
        },
        PropertyId::GridRow => {
            assert("grid-row"@[0] == 'g' && "position"@[0] == 'p');
        },
        PropertyId::GridColumnStart => {
            assert("grid-column-start"@[0] == 'g' && "border-left-width"@[0] == 'b');
        },
        PropertyId::GridColumnEnd => {
            assert("grid-column-end"@[0] == 'g' && "justify-content"@[0] == 'j');
        },
        PropertyId::GridRowStart => {
            assert("grid-row-start"@[0] == 'g' && "padding-bottom"@[0] == 'p');
            assert("grid-row-start"@[0] == 'g' && "flex-direction"@[0] == 'f');
        },
        PropertyId::GridRowEnd => {
            assert("grid-row-end"@[0] == 'g' && "margin-right"@[0] == 'm');
            assert("grid-row-end"@[0] == 'g' && "padding-left"@[0] == 'p');
            assert("grid-row-end"@[0] == 'g' && "border-color"@[0] == 'b');
            assert("grid-row-end"@[0] == 'g' && "border-style"@[0] == 'b');
        },
        PropertyId::GridGap => {
            assert("grid-gap"@[0] == 'g' && "position"@[0] == 'p');
            assert("grid-gap"@[5] == 'g' && "grid-row"@[5] == 'r');
        },
        PropertyId::RowGap => {
            assert("row-gap"@[0] == 'r' && "display"@[0] == 'd');
            assert("row-gap"@[0] == 'r' && "z-index"@[0] == 'z');
        },
        PropertyId::ColumnGap => {
            assert("column-gap"@[0] == 'c' && "box-sizing"@[0] == 'b');
            assert("column-gap"@[0] == 'c' && "margin-top"@[0] == 'm');
            assert("column-gap"@[0] == 'c' && "background"@[0] == 'b');
            assert("column-gap"@[0] == 'c' && "text-align"@[0] == 't');
            assert("column-gap"@[0] == 'c' && "align-self"@[0] == 'a');
            assert("column-gap"@[0] == 'c' && "flex-basis"@[0] == 'f');
        },
        PropertyId::AnimationName => {
            assert("animation-name"@[0] == 'a' && "padding-bottom"@[0] == 'p');
            assert("animation-name"@[0] == 'a' && "flex-direction"@[0] == 'f');
            assert("animation-name"@[0] == 'a' && "grid-row-start"@[0] == 'g');
        },
        PropertyId::AnimationDuration => {
            assert("animation-duration"@[0] == 'a' && "border-right-width"@[0] == 'b');
            assert("animation-duration"@[0] == 'a' && "grid-template-rows"@[0] == 'g');
        },
        PropertyId::AnimationTimingFunction => {

        },
        PropertyId::AnimationIterationCount => {
            assert("animation-iteration-count"@[10] == 'i' && "animation-timing-function"@[10] == 't');
        },
        PropertyId::BorderCollapse => {
            assert("border-collapse"@[0] == 'b' && "justify-content"@[0] == 'j');
            assert("border-collapse"@[0] == 'b' && "grid-column-end"@[0] == 'g');
        },
        PropertyId::BorderSpacing => {
            assert("border-spacing"@[0] == 'b' && "padding-bottom"@[0] == 'p');
            assert("border-spacing"@[0] == 'b' && "flex-direction"@[0] == 'f');
            assert("border-spacing"@[0] == 'b' && "grid-row-start"@[0] == 'g');
            assert("border-spacing"@[0] == 'b' && "animation-name"@[0] == 'a');
        },
        PropertyId::VerticalAlign => {
            assert("vertical-align"@[0] == 'v' && "padding-bottom"@[0] == 'p');
            assert("vertical-align"@[0] == 'v' && "flex-direction"@[0] == 'f');
            assert("vertical-align"@[0] == 'v' && "grid-row-start"@[0] == 'g');
            assert("vertical-align"@[0] == 'v' && "animation-name"@[0] == 'a');
            assert("vertical-align"@[0] == 'v' && "border-spacing"@[0] == 'b');
        },
        PropertyId::Opacity => {
            assert("opacity"@[0] == 'o' && "display"@[0] == 'd');
            assert("opacity"@[0] == 'o' && "z-index"@[0] == 'z');
            assert("opacity"@[0] == 'o' && "row-gap"@[0] == 'r');
        },
        PropertyId::BorderRadius => {
            assert("border-radius"@[0] == 'b' && "margin-bottom"@[0] == 'm');
            assert("border-radius"@[0] == 'b' && "padding-right"@[0] == 'p');
        },
        PropertyId::BoxShadow => {
            assert("box-shadow"@[5] == 'h' && "box-sizing"@[5] == 'i');
            assert("box-shadow"@[0] == 'b' && "margin-top"@[0] == 'm');
            assert("box-shadow"@[1] == 'o' && "background"@[1] == 'a');
            assert("box-shadow"@[0] == 'b' && "text-align"@[0] == 't');
            assert("box-shadow"@[0] == 'b' && "align-self"@[0] == 'a');
            assert("box-shadow"@[0] == 'b' && "flex-basis"@[0] == 'f');
            assert("box-shadow"@[0] == 'b' && "column-gap"@[0] == 'c');
        },
        PropertyId::Overflow => {
            assert("overflow"@[0] == 'o' && "position"@[0] == 'p');
            assert("overflow"@[0] == 'o' && "grid-row"@[0] == 'g');
            assert("overflow"@[0] == 'o' && "grid-gap"@[0] == 'g');
        },
    }
}

} // verus!
