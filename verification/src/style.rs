//! Styling data model.
//!
//! An authored [`Style`] is a sparse record: every property is optional and an
//! unset property means "inherit or default". A [`ComputedStyle`] is the same
//! property set with every field concretely populated; it is produced by the
//! resolver and is the only style record layout reads.
//!
//! Lengths are whole pixels (`u32`), colors are 8-bit RGBA channels, and a
//! font family is an opaque numeric identifier mapped to a concrete typeface
//! by the embedding application.

use vstd::prelude::*;

verus! {

/// An 8-bit RGBA color.
#[derive(Clone, Copy, Debug, PartialEq, Eq, Structural)]
pub struct Color {
    pub r: u8,
    pub g: u8,
    pub b: u8,
    pub a: u8,
}

impl Color {
    pub fn new(r: u8, g: u8, b: u8, a: u8) -> (c: Color)
        ensures
            c == (Color { r, g, b, a }),
    {
        Color { r, g, b, a }
    }

    pub fn black() -> (c: Color)
        ensures
            c == (Color { r: 0u8, g: 0u8, b: 0u8, a: 255u8 }),
    {
        Color { r: 0, g: 0, b: 0, a: 255 }
    }

    pub fn white() -> (c: Color)
        ensures
            c == (Color { r: 255u8, g: 255u8, b: 255u8, a: 255u8 }),
    {
        Color { r: 255, g: 255, b: 255, a: 255 }
    }

    pub fn transparent() -> (c: Color)
        ensures
            c == (Color { r: 0u8, g: 0u8, b: 0u8, a: 0u8 }),
    {
        Color { r: 0, g: 0, b: 0, a: 0 }
    }
}

#[derive(Clone, Copy, Debug, PartialEq, Eq, Structural)]
pub enum Display {
    Block,
    Inline,
    InlineBlock,
    Flex,
    /// The `display: none` value: the node gets a zero-size box and its
    /// children are skipped entirely.
    Hidden,
}

/// An authored length: absolute pixels, a percentage of the available extent,
/// or automatic.
#[derive(Clone, Copy, Debug, PartialEq, Eq, Structural)]
pub enum Size {
    Points(u32),
    Percent(u32),
    Auto,
}

#[derive(Clone, Copy, Debug, PartialEq, Eq, Structural)]
pub enum FlexDirection {
    Row,
    RowReverse,
    Column,
    ColumnReverse,
}

#[derive(Clone, Copy, Debug, PartialEq, Eq, Structural)]
pub enum JustifyContent {
    FlexStart,
    FlexEnd,
    Center,
    SpaceBetween,
    SpaceAround,
    SpaceEvenly,
}

#[derive(Clone, Copy, Debug, PartialEq, Eq, Structural)]
pub enum AlignItems {
    FlexStart,
    FlexEnd,
    Center,
    Stretch,
    Baseline,
}

#[derive(Clone, Copy, Debug, PartialEq, Eq, Structural)]
pub enum AlignContent {
    FlexStart,
    FlexEnd,
    Center,
    Stretch,
    SpaceBetween,
    SpaceAround,
}

#[derive(Clone, Copy, Debug, PartialEq, Eq, Structural)]
pub enum AlignSelf {
    Auto,
    FlexStart,
    FlexEnd,
    Center,
    Stretch,
    Baseline,
}

impl AlignSelf {
    /// The item alignment this self-alignment stands for. `Auto` has no
    /// counterpart: it falls back to the container's `align-items`.
    pub fn to_align_items(self) -> (r: AlignItems)
        requires
            self != AlignSelf::Auto,
        ensures
            r == self.spec_to_align_items(),
    {
        match self {
            AlignSelf::FlexStart => AlignItems::FlexStart,
            AlignSelf::FlexEnd => AlignItems::FlexEnd,
            AlignSelf::Center => AlignItems::Center,
            AlignSelf::Stretch => AlignItems::Stretch,
            AlignSelf::Baseline => AlignItems::Baseline,
            AlignSelf::Auto => AlignItems::FlexStart,
        }
    }

    pub open spec fn spec_to_align_items(self) -> AlignItems {
        match self {
            AlignSelf::FlexStart => AlignItems::FlexStart,
            AlignSelf::FlexEnd => AlignItems::FlexEnd,
            AlignSelf::Center => AlignItems::Center,
            AlignSelf::Stretch => AlignItems::Stretch,
            AlignSelf::Baseline => AlignItems::Baseline,
            AlignSelf::Auto => AlignItems::FlexStart,
        }
    }
}

#[derive(Clone, Copy, Debug, PartialEq, Eq, Structural)]
pub enum FlexWrap {
    NoWrap,
    Wrap,
    WrapReverse,
}

#[derive(Clone, Copy, Debug, PartialEq, Eq, Structural)]
pub enum BoxSizing {
    ContentBox,
    BorderBox,
    Inherit,
}

#[derive(Clone, Copy, Debug, PartialEq, Eq, Structural)]
pub enum Float {
    Left,
    Right,
    /// The `float: none` value: the node stays in normal flow.
    NoFloat,
    Inherit,
}

#[derive(Clone, Copy, Debug, PartialEq, Eq, Structural)]
pub enum Position {
    Static,
    Relative,
    Absolute,
    Fixed,
}

/// Authored per-side box-model lengths; an unset side means zero.
#[derive(Clone, Copy, Debug, PartialEq, Eq, Structural)]
pub struct BoxModelValues {
    pub top: Option<u32>,
    pub right: Option<u32>,
    pub bottom: Option<u32>,
    pub left: Option<u32>,
}

impl BoxModelValues {
    pub fn all(value: u32) -> (r: BoxModelValues)
        ensures
            r == (BoxModelValues {
                top: Some(value),
                right: Some(value),
                bottom: Some(value),
                left: Some(value),
            }),
    {
        BoxModelValues { top: Some(value), right: Some(value), bottom: Some(value), left: Some(value) }
    }

    pub fn top(self, value: u32) -> (r: BoxModelValues)
        ensures
            r == (BoxModelValues { top: Some(value), ..self }),
    {
        BoxModelValues { top: Some(value), ..self }
    }

    pub fn right(self, value: u32) -> (r: BoxModelValues)
        ensures
            r == (BoxModelValues { right: Some(value), ..self }),
    {
        BoxModelValues { right: Some(value), ..self }
    }

    pub fn bottom(self, value: u32) -> (r: BoxModelValues)
        ensures
            r == (BoxModelValues { bottom: Some(value), ..self }),
    {
        BoxModelValues { bottom: Some(value), ..self }
    }

    pub fn left(self, value: u32) -> (r: BoxModelValues)
        ensures
            r == (BoxModelValues { left: Some(value), ..self }),
    {
        BoxModelValues { left: Some(value), ..self }
    }

    pub open spec fn spec_top(self) -> int {
        match self.top {
            Some(v) => v as int,
            None => 0,
        }
    }

    pub open spec fn spec_right(self) -> int {
        match self.right {
            Some(v) => v as int,
            None => 0,
        }
    }

    pub open spec fn spec_bottom(self) -> int {
        match self.bottom {
            Some(v) => v as int,
            None => 0,
        }
    }

    pub open spec fn spec_left(self) -> int {
        match self.left {
            Some(v) => v as int,
            None => 0,
        }
    }

    pub fn get_top(&self) -> (r: u32)
        ensures
            r == self.spec_top(),
    {
        match self.top {
            Some(v) => v,
            None => 0,
        }
    }

    pub fn get_right(&self) -> (r: u32)
        ensures
            r == self.spec_right(),
    {
        match self.right {
            Some(v) => v,
            None => 0,
        }
    }

    pub fn get_bottom(&self) -> (r: u32)
        ensures
            r == self.spec_bottom(),
    {
        match self.bottom {
            Some(v) => v,
            None => 0,
        }
    }

    pub fn get_left(&self) -> (r: u32)
        ensures
            r == self.spec_left(),
    {
        match self.left {
            Some(v) => v,
            None => 0,
        }
    }

    /// Left plus right side, as a pixel extent.
    pub fn horizontal_padding(&self) -> (r: u64)
        ensures
            r == self.spec_left() + self.spec_right(),
    {
        self.get_left() as u64 + self.get_right() as u64
    }

    /// Top plus bottom side, as a pixel extent.
    pub fn vertical_padding(&self) -> (r: u64)
        ensures
            r == self.spec_top() + self.spec_bottom(),
    {
        self.get_top() as u64 + self.get_bottom() as u64
    }
}

impl Default for BoxModelValues {
    fn default() -> (r: BoxModelValues)
        ensures
            r == (BoxModelValues { top: None, right: None, bottom: None, left: None }),
    {
        BoxModelValues { top: None, right: None, bottom: None, left: None }
    }
}

/// One border edge: a width and a color.
#[derive(Clone, Copy, Debug, PartialEq, Eq, Structural)]
pub struct BorderSide {
    pub width: u32,
    pub color: Color,
}

/// Per-side borders; an unset side means no border.
#[derive(Clone, Copy, Debug, PartialEq, Eq, Structural)]
pub struct BorderStyle {
    pub top: Option<BorderSide>,
    pub right: Option<BorderSide>,
    pub bottom: Option<BorderSide>,
    pub left: Option<BorderSide>,
}

impl BorderStyle {
    pub fn uniform(width: u32, color: Color) -> (r: BorderStyle)
        ensures
            r == BorderStyle::spec_uniform(width, color),
    {
        let side = BorderSide { width, color };
        BorderStyle { top: Some(side), right: Some(side), bottom: Some(side), left: Some(side) }
    }

    pub open spec fn spec_uniform(width: u32, color: Color) -> BorderStyle {
        let side = BorderSide { width, color };
        BorderStyle { top: Some(side), right: Some(side), bottom: Some(side), left: Some(side) }
    }

    pub fn all(width: u32, color: Color) -> (r: BorderStyle)
        ensures
            r == BorderStyle::spec_uniform(width, color),
    {
        Self::uniform(width, color)
    }

    pub fn top(self, width: u32, color: Color) -> (r: BorderStyle)
        ensures
            r == (BorderStyle { top: Some(BorderSide { width, color }), ..self }),
    {
        BorderStyle { top: Some(BorderSide { width, color }), ..self }
    }

    pub fn right(self, width: u32, color: Color) -> (r: BorderStyle)
        ensures
            r == (BorderStyle { right: Some(BorderSide { width, color }), ..self }),
    {
        BorderStyle { right: Some(BorderSide { width, color }), ..self }
    }

    pub fn bottom(self, width: u32, color: Color) -> (r: BorderStyle)
        ensures
            r == (BorderStyle { bottom: Some(BorderSide { width, color }), ..self }),
    {
        BorderStyle { bottom: Some(BorderSide { width, color }), ..self }
    }

    pub fn left(self, width: u32, color: Color) -> (r: BorderStyle)
        ensures
            r == (BorderStyle { left: Some(BorderSide { width, color }), ..self }),
    {
        BorderStyle { left: Some(BorderSide { width, color }), ..self }
    }

    pub open spec fn spec_top_width(self) -> int {
        match self.top {
            Some(s) => s.width as int,
            None => 0,
        }
    }

    pub open spec fn spec_right_width(self) -> int {
        match self.right {
            Some(s) => s.width as int,
            None => 0,
        }
    }

    pub open spec fn spec_bottom_width(self) -> int {
        match self.bottom {
            Some(s) => s.width as int,
            None => 0,
        }
    }

    pub open spec fn spec_left_width(self) -> int {
        match self.left {
            Some(s) => s.width as int,
            None => 0,
        }
    }

    pub fn top_width(&self) -> (r: u32)
        ensures
            r == self.spec_top_width(),
    {
        match self.top {
            Some(s) => s.width,
            None => 0,
        }
    }

    pub fn right_width(&self) -> (r: u32)
        ensures
            r == self.spec_right_width(),
    {
        match self.right {
            Some(s) => s.width,
            None => 0,
        }
    }

    pub fn bottom_width(&self) -> (r: u32)
        ensures
            r == self.spec_bottom_width(),
    {
        match self.bottom {
            Some(s) => s.width,
            None => 0,
        }
    }

    pub fn left_width(&self) -> (r: u32)
        ensures
            r == self.spec_left_width(),
    {
        match self.left {
            Some(s) => s.width,
            None => 0,
        }
    }
}

impl Default for BorderStyle {
    fn default() -> (r: BorderStyle)
        ensures
            r == (BorderStyle { top: None, right: None, bottom: None, left: None }),
    {
        BorderStyle { top: None, right: None, bottom: None, left: None }
    }
}

/// Authored positioning offsets; unset sides mean zero.
#[derive(Clone, Copy, Debug, PartialEq, Eq, Structural, Default)]
pub struct PositionOffsets {
    pub top: Option<u32>,
    pub right: Option<u32>,
    pub bottom: Option<u32>,
    pub left: Option<u32>,
}

/// Fully resolved positioning offsets.
#[derive(Clone, Copy, Debug, PartialEq, Eq, Structural, Default)]
pub struct ComputedPositionOffsets {
    pub top: u32,
    pub right: u32,
    pub bottom: u32,
    pub left: u32,
}

/// Fully resolved per-side box-model lengths.
#[derive(Clone, Copy, Debug, PartialEq, Eq, Structural, Default)]
pub struct BoxSides {
    pub top: u32,
    pub right: u32,
    pub bottom: u32,
    pub left: u32,
}

impl BoxSides {
    /// Left plus right side, as a pixel extent.
    pub fn horizontal(&self) -> (r: u64)
        ensures
            r == self.left + self.right,
    {
        self.left as u64 + self.right as u64
    }

    /// Top plus bottom side, as a pixel extent.
    pub fn vertical(&self) -> (r: u64)
        ensures
            r == self.top + self.bottom,
    {
        self.top as u64 + self.bottom as u64
    }

    /// The resolved sides an authored record stands for: unset sides are zero.
    pub open spec fn spec_from(v: BoxModelValues) -> BoxSides {
        BoxSides {
            top: if v.top is Some { v.top->0 } else { 0 },
            right: if v.right is Some { v.right->0 } else { 0 },
            bottom: if v.bottom is Some { v.bottom->0 } else { 0 },
            left: if v.left is Some { v.left->0 } else { 0 },
        }
    }

    pub fn from_values(v: &BoxModelValues) -> (r: BoxSides)
        ensures
            r == BoxSides::spec_from(*v),
    {
        BoxSides {
            top: v.get_top(),
            right: v.get_right(),
            bottom: v.get_bottom(),
            left: v.get_left(),
        }
    }
}

/// Authored font properties.
#[derive(Clone, Copy, Debug, PartialEq, Eq, Structural, Default)]
pub struct Font {
    pub color: Option<Color>,
    pub font_size: Option<u32>,
    pub font_family: Option<u32>,
}

/// A sparse, authored style record. Every property is optional; unset fields
/// mean "inherit or default" and are filled in by the resolver.
#[derive(Clone, Copy, Debug, PartialEq, Eq, Structural)]
pub struct Style {
    pub display: Option<Display>,
    pub width: Option<Size>,
    pub height: Option<Size>,
    pub bg_color: Option<Color>,
    pub color: Option<Color>,
    pub margin: Option<BoxModelValues>,
    pub padding: Option<BoxModelValues>,
    pub border: Option<BorderStyle>,
    pub box_sizing: Option<BoxSizing>,
    pub position: Option<Position>,
    pub position_offsets: Option<ComputedPositionOffsets>,
    pub float: Option<Float>,
    pub font: Option<Font>,
    pub flex_direction: Option<FlexDirection>,
    pub justify_content: Option<JustifyContent>,
    pub align_items: Option<AlignItems>,
    pub align_content: Option<AlignContent>,
    pub flex_wrap: Option<FlexWrap>,
    pub align_self: Option<AlignSelf>,
    pub flex_grow: Option<u32>,
    pub flex_shrink: Option<u32>,
}

impl Default for Style {
    fn default() -> (r: Style)
        ensures
            r == Style::spec_default(),
    {
        Style {
            display: None,
            width: None,
            height: None,
            bg_color: None,
            color: None,
            margin: None,
            padding: None,
            border: None,
            box_sizing: None,
            position: None,
            position_offsets: None,
            float: None,
            font: None,
            flex_direction: None,
            justify_content: None,
            align_items: None,
            align_content: None,
            flex_wrap: None,
            align_self: None,
            flex_grow: None,
            flex_shrink: None,
        }
    }
}

impl Style {
    /// The all-unset style record.
    pub open spec fn spec_default() -> Style {
        Style {
            display: None,
            width: None,
            height: None,
            bg_color: None,
            color: None,
            margin: None,
            padding: None,
            border: None,
            box_sizing: None,
            position: None,
            position_offsets: None,
            float: None,
            font: None,
            flex_direction: None,
            justify_content: None,
            align_items: None,
            align_content: None,
            flex_wrap: None,
            align_self: None,
            flex_grow: None,
            flex_shrink: None,
        }
    }

    /// Merge semantics of [`Style::apply`]: a field set in `other` overwrites
    /// the field of `base`; an unset field leaves it alone.
    pub open spec fn spec_apply(base: Style, other: Style) -> Style {
        Style {
            display: if other.display is Some { other.display } else { base.display },
            width: if other.width is Some { other.width } else { base.width },
            height: if other.height is Some { other.height } else { base.height },
            bg_color: if other.bg_color is Some { other.bg_color } else { base.bg_color },
            color: if other.color is Some { other.color } else { base.color },
            margin: if other.margin is Some { other.margin } else { base.margin },
            padding: if other.padding is Some { other.padding } else { base.padding },
            border: if other.border is Some { other.border } else { base.border },
            box_sizing: if other.box_sizing is Some { other.box_sizing } else { base.box_sizing },
            position: if other.position is Some { other.position } else { base.position },
            position_offsets: if other.position_offsets is Some {
                other.position_offsets
            } else {
                base.position_offsets
            },
            float: if other.float is Some { other.float } else { base.float },
            font: if other.font is Some { other.font } else { base.font },
            flex_direction: if other.flex_direction is Some {
                other.flex_direction
            } else {
                base.flex_direction
            },
            justify_content: if other.justify_content is Some {
                other.justify_content
            } else {
                base.justify_content
            },
            align_items: if other.align_items is Some { other.align_items } else { base.align_items },
            align_content: if other.align_content is Some {
                other.align_content
            } else {
                base.align_content
            },
            flex_wrap: if other.flex_wrap is Some { other.flex_wrap } else { base.flex_wrap },
            align_self: if other.align_self is Some { other.align_self } else { base.align_self },
            flex_grow: if other.flex_grow is Some { other.flex_grow } else { base.flex_grow },
            flex_shrink: if other.flex_shrink is Some { other.flex_shrink } else { base.flex_shrink },
        }
    }

    /// Overwrite every field of `self` that is set in `other`; keep the rest.
    pub fn apply(&mut self, other: &Style)
        ensures
            *final(self) == Style::spec_apply(*old(self), *other),
    {
        *self = Style {
            display: if other.display.is_some() { other.display } else { self.display },
            width: if other.width.is_some() { other.width } else { self.width },
            height: if other.height.is_some() { other.height } else { self.height },
            bg_color: if other.bg_color.is_some() { other.bg_color } else { self.bg_color },
            color: if other.color.is_some() { other.color } else { self.color },
            margin: if other.margin.is_some() { other.margin } else { self.margin },
            padding: if other.padding.is_some() { other.padding } else { self.padding },
            border: if other.border.is_some() { other.border } else { self.border },
            box_sizing: if other.box_sizing.is_some() { other.box_sizing } else { self.box_sizing },
            position: if other.position.is_some() { other.position } else { self.position },
            position_offsets: if other.position_offsets.is_some() {
                other.position_offsets
            } else {
                self.position_offsets
            },
            float: if other.float.is_some() { other.float } else { self.float },
            font: if other.font.is_some() { other.font } else { self.font },
            flex_direction: if other.flex_direction.is_some() {
                other.flex_direction
            } else {
                self.flex_direction
            },
            justify_content: if other.justify_content.is_some() {
                other.justify_content
            } else {
                self.justify_content
            },
            align_items: if other.align_items.is_some() {
                other.align_items
            } else {
                self.align_items
            },
            align_content: if other.align_content.is_some() {
                other.align_content
            } else {
                self.align_content
            },
            flex_wrap: if other.flex_wrap.is_some() { other.flex_wrap } else { self.flex_wrap },
            align_self: if other.align_self.is_some() { other.align_self } else { self.align_self },
            flex_grow: if other.flex_grow.is_some() { other.flex_grow } else { self.flex_grow },
            flex_shrink: if other.flex_shrink.is_some() {
                other.flex_shrink
            } else {
                self.flex_shrink
            },
        };
    }
}

/// The default font family identifier.
pub const FAMILY_DEFAULT: u32 = 0;

/// The default font size in pixels.
pub const FONT_SIZE_DEFAULT: u32 = 16;

/// A fully resolved style: every property concretely populated, ready for
/// layout. The inherit sentinels of box-sizing and float never survive
/// resolution ([`ComputedStyle::wf`]).
#[derive(Clone, Copy, Debug, PartialEq, Eq, Structural)]
pub struct ComputedStyle {
    pub display: Display,
    pub width: Size,
    pub height: Size,
    pub bg_color: Color,
    pub margin: BoxSides,
    pub padding: BoxSides,
    pub border: BorderStyle,
    pub box_sizing: BoxSizing,
    pub position: Position,
    pub position_offsets: ComputedPositionOffsets,
    pub float: Float,
    pub color: Color,
    pub font_size: u32,
    pub font_family: u32,
    pub flex_direction: FlexDirection,
    pub justify_content: JustifyContent,
    pub align_items: AlignItems,
    pub align_content: AlignContent,
    pub flex_wrap: FlexWrap,
    pub align_self: AlignSelf,
    pub flex_grow: u32,
    pub flex_shrink: u32,
}

impl ComputedStyle {
    /// Resolution leaves no inherit sentinel behind.
    pub open spec fn wf(self) -> bool {
        self.box_sizing != BoxSizing::Inherit && self.float != Float::Inherit
    }

    /// The engine-wide default style: block display, automatic extents, zero
    /// box model, black background, white 16px text in the default family.
    pub open spec fn spec_default() -> ComputedStyle {
        ComputedStyle {
            display: Display::Block,
            width: Size::Auto,
            height: Size::Auto,
            bg_color: Color { r: 0, g: 0, b: 0, a: 255 },
            margin: BoxSides { top: 0, right: 0, bottom: 0, left: 0 },
            padding: BoxSides { top: 0, right: 0, bottom: 0, left: 0 },
            border: BorderStyle { top: None, right: None, bottom: None, left: None },
            box_sizing: BoxSizing::ContentBox,
            position: Position::Static,
            position_offsets: ComputedPositionOffsets { top: 0, right: 0, bottom: 0, left: 0 },
            float: Float::NoFloat,
            color: Color { r: 255, g: 255, b: 255, a: 255 },
            font_size: FONT_SIZE_DEFAULT,
            font_family: FAMILY_DEFAULT,
            flex_direction: FlexDirection::Row,
            justify_content: JustifyContent::Center,
            align_items: AlignItems::Center,
            align_content: AlignContent::Center,
            flex_wrap: FlexWrap::NoWrap,
            align_self: AlignSelf::Auto,
            flex_grow: 0,
            flex_shrink: 0,
        }
    }
}

impl Default for ComputedStyle {
    fn default() -> (r: ComputedStyle)
        ensures
            r == ComputedStyle::spec_default(),
            r.wf(),
    {
        ComputedStyle {
            display: Display::Block,
            width: Size::Auto,
            height: Size::Auto,
            bg_color: Color { r: 0, g: 0, b: 0, a: 255 },
            margin: BoxSides { top: 0, right: 0, bottom: 0, left: 0 },
            padding: BoxSides { top: 0, right: 0, bottom: 0, left: 0 },
            border: BorderStyle { top: None, right: None, bottom: None, left: None },
            box_sizing: BoxSizing::ContentBox,
            position: Position::Static,
            position_offsets: ComputedPositionOffsets { top: 0, right: 0, bottom: 0, left: 0 },
            float: Float::NoFloat,
            color: Color { r: 255, g: 255, b: 255, a: 255 },
            font_size: FONT_SIZE_DEFAULT,
            font_family: FAMILY_DEFAULT,
            flex_direction: FlexDirection::Row,
            justify_content: JustifyContent::Center,
            align_items: AlignItems::Center,
            align_content: AlignContent::Center,
            flex_wrap: FlexWrap::NoWrap,
            align_self: AlignSelf::Auto,
            flex_grow: 0,
            flex_shrink: 0,
        }
    }
}

} // verus!
