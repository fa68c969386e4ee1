//! Tool and workspace settings that carry no floating-point values: ink
//! colours, font slots and their family names, the shape tool's kind, the
//! window size and the last opened file.
use vstd::prelude::*;
use crate::theme::{COLOR_HIGHLIGHT, COLOR_INK};

verus! {

/// Which of the two ink presets a stroke uses.
#[derive(Debug, Clone, Copy, PartialEq, Eq, Structural)]
pub enum InkColor {
    Pen,
    Highlighter,
}

/// The index under which an ink preset is stored.
pub open spec fn ink_idx(c: InkColor) -> u8 {
    match c {
        InkColor::Pen => 0,
        InkColor::Highlighter => 1,
    }
}

/// The RGBA colour of an ink preset.
pub open spec fn ink_rgba(c: InkColor) -> Seq<u8> {
    match c {
        InkColor::Pen => COLOR_INK@,
        InkColor::Highlighter => COLOR_HIGHLIGHT@,
    }
}

/// The colour stored under an index: 1 is the highlighter, anything else ink.
pub open spec fn idx_rgba(idx: u8) -> Seq<u8> {
    if idx == 1 {
        COLOR_HIGHLIGHT@
    } else {
        COLOR_INK@
    }
}

impl InkColor {
    pub fn to_idx(self) -> (i: u8)
        ensures
            i == ink_idx(self),
    {
        match self {
            InkColor::Pen => 0,
            InkColor::Highlighter => 1,
        }
    }

    pub fn rgba(self) -> (c: [u8; 4])
        ensures
            c@ == ink_rgba(self),
    {
        match self {
            InkColor::Pen => COLOR_INK,
            InkColor::Highlighter => COLOR_HIGHLIGHT,
        }
    }
}

/// The colour for a stored ink index.
pub fn color_from_idx(idx: u8) -> (c: [u8; 4])
    ensures
        c@ == idx_rgba(idx),
{
    if idx == 1 {
        COLOR_HIGHLIGHT
    } else {
        COLOR_INK
    }
}

/// Storing an ink preset by index and reading the colour back gives the
/// preset's own colour.
pub proof fn law_ink_index_round_trip(c: InkColor)
    ensures
        idx_rgba(ink_idx(c)) == ink_rgba(c),
{
}

/// An abstract font slot; the workspace maps each to a family name.
#[derive(Debug, Clone, Copy, PartialEq, Eq, Structural)]
pub enum FontSlot {
    Default,
    Mono,
    Serif,
    Slab,
    Thematic,
}

impl Default for FontSlot {
    fn default() -> (s: FontSlot)
        ensures
            s == FontSlot::Default,
    {
        FontSlot::Default
    }
}

pub open spec fn font_slot_label(s: FontSlot) -> Seq<char> {
    match s {
        FontSlot::Default => "Default"@,
        FontSlot::Mono => "Mono"@,
        FontSlot::Serif => "Serif"@,
        FontSlot::Slab => "Slab"@,
        FontSlot::Thematic => "Thematic"@,
    }
}

pub open spec fn font_slots_spec() -> Seq<FontSlot> {
    seq![FontSlot::Default, FontSlot::Mono, FontSlot::Serif, FontSlot::Slab, FontSlot::Thematic]
}

impl FontSlot {
    /// Every slot, in the order the settings page lists them.
    pub fn all() -> (r: [FontSlot; 5])
        ensures
            r@ == font_slots_spec(),
    {
        let r = [FontSlot::Default, FontSlot::Mono, FontSlot::Serif, FontSlot::Slab, FontSlot::Thematic];
        assert(r@ =~= font_slots_spec());
        r
    }

    pub fn label(self) -> (s: &'static str)
        ensures
            s@ == font_slot_label(self),
    {
        match self {
            FontSlot::Default => "Default",
            FontSlot::Mono => "Mono",
            FontSlot::Serif => "Serif",
            FontSlot::Slab => "Slab",
            FontSlot::Thematic => "Thematic",
        }
    }
}

/// Every font slot is listed once.
pub proof fn law_every_font_slot_listed_once(s: FontSlot)
    ensures
        font_slots_spec().contains(s),
        forall|i: int, j: int|
            0 <= i < j < font_slots_spec().len() ==> font_slots_spec()[i] != font_slots_spec()[j],
{
    let k: int = match s {
        FontSlot::Default => 0,
        FontSlot::Mono => 1,
        FontSlot::Serif => 2,
        FontSlot::Slab => 3,
        FontSlot::Thematic => 4,
    };
    assert(font_slots_spec()[k] == s);
}

/// The shape the shape tool draws.
#[derive(Debug, Clone, Copy, PartialEq, Eq, Structural)]
pub enum ActiveShape {
    Rectangle,
    Ellipse,
    Line,
}

pub open spec fn active_shape_label(s: ActiveShape) -> Seq<char> {
    match s {
        ActiveShape::Rectangle => "Rect"@,
        ActiveShape::Ellipse => "Ellipse"@,
        ActiveShape::Line => "Line"@,
    }
}

impl ActiveShape {
    pub fn label(self) -> (s: &'static str)
        ensures
            s@ == active_shape_label(self),
    {
        match self {
            ActiveShape::Rectangle => "Rect",
            ActiveShape::Ellipse => "Ellipse",
            ActiveShape::Line => "Line",
        }
    }
}

/// Maps the abstract font slots to font family names.
#[derive(Debug, Clone)]
pub struct FontMappings {
    pub default: String,
    pub mono: String,
    pub serif: String,
    pub slab: String,
    pub thematic: String,
}

/// The family name a mapping gives a slot.
pub open spec fn resolved_family(m: FontMappings, slot: FontSlot) -> Seq<char> {
    match slot {
        FontSlot::Default => m.default@,
        FontSlot::Mono => m.mono@,
        FontSlot::Serif => m.serif@,
        FontSlot::Slab => m.slab@,
        FontSlot::Thematic => m.thematic@,
    }
}

impl Default for FontMappings {
    fn default() -> (m: FontMappings)
        ensures
            m.default@ == "Inter"@,
            m.mono@ == "JetBrains Mono"@,
            m.serif@ == "Source Serif Pro"@,
            m.slab@ == "Roboto Slab"@,
            m.thematic@ == "Inter"@,
    {
        FontMappings {
            default: String::from_str("Inter"),
            mono: String::from_str("JetBrains Mono"),
            serif: String::from_str("Source Serif Pro"),
            slab: String::from_str("Roboto Slab"),
            thematic: String::from_str("Inter"),
        }
    }
}

impl FontMappings {
    /// The family name mapped to `slot`.
    pub fn resolve(&self, slot: FontSlot) -> (r: &str)
        ensures
            r@ == resolved_family(*self, slot),
    {
        match slot {
            FontSlot::Default => self.default.as_str(),
            FontSlot::Mono => self.mono.as_str(),
            FontSlot::Serif => self.serif.as_str(),
            FontSlot::Slab => self.slab.as_str(),
            FontSlot::Thematic => self.thematic.as_str(),
        }
    }
}

/// The initial window size, in logical pixels.
#[derive(Debug, Clone, Copy, PartialEq, Eq, Structural)]
pub struct WindowConfig {
    pub width: u32,
    pub height: u32,
}

impl Default for WindowConfig {
    fn default() -> (w: WindowConfig)
        ensures
            w.width == 1280,
            w.height == 800,
    {
        WindowConfig { width: 1280, height: 800 }
    }
}

/// What the app remembers between runs.
#[derive(Debug, Clone)]
pub struct PersistedState {
    pub last_file: Option<String>,
}

impl Default for PersistedState {
    fn default() -> (s: PersistedState)
        ensures
            s.last_file is None,
    {
        PersistedState { last_file: None }
    }
}

/// The name of the settings file inside a workspace.
pub const SETTINGS_FILE_NAME: &'static str = ".writee-settings.toml";

} // verus!
