//! Colour tokens used across the whole app: exactly two presets, light and
//! dark. Every colour the user can see goes through one of these.
use vstd::prelude::*;

verus! {

/// Default near-black ink.
pub const COLOR_INK: [u8; 4] = [18, 18, 18, 255];
/// Semi-transparent yellow highlighter.
pub const COLOR_HIGHLIGHT: [u8; 4] = [255, 220, 60, 110];
/// Bright orange selection cue.
pub const COLOR_SELECTION: [u8; 4] = [255, 110, 30, 235];
/// Light gray live-marquee preview.
pub const COLOR_MARQUEE: [u8; 4] = [120, 120, 180, 160];
/// Subtle gray-blue for connection links.
pub const COLOR_LINK: [u8; 4] = [60, 70, 90, 220];

/// Top-level theme identifier (persisted to settings).
#[derive(Debug, Clone, Copy, PartialEq, Eq, Structural)]
pub enum ThemeName {
    Light,
    Dark,
}

impl Default for ThemeName {
    fn default() -> (t: ThemeName)
        ensures
            t == ThemeName::Light,
    {
        ThemeName::Light
    }
}

/// A concrete colour palette (RGBA).
#[derive(Debug, Clone, Copy)]
pub struct ColorTheme {
    pub canvas_bg: [u8; 4],
    pub grid_dot: [u8; 4],
    pub ink: [u8; 4],
    pub highlight: [u8; 4],
    pub selection: [u8; 4],
    pub marquee: [u8; 4],
    pub link: [u8; 4],
    pub card_inline_fill: [u8; 4],
    pub card_index_fill: [u8; 4],
    pub card_linked_fill: [u8; 4],
    pub card_border: [u8; 4],
    pub card_border_locked: [u8; 4],
    pub card_shadow: [u8; 4],
    pub text_default: [u8; 4],
    pub text_weak: [u8; 4],
    pub chrome_bg: [u8; 4],
    pub chrome_panel_bg: [u8; 4],
    pub chrome_border: [u8; 4],
    pub chrome_hover_bg: [u8; 4],
    pub chrome_active_bg: [u8; 4],
    pub chrome_text: [u8; 4],
    pub chrome_text_on_active: [u8; 4],
}

pub open spec fn rgba(r: u8, g: u8, b: u8, a: u8) -> Seq<u8> {
    seq![r, g, b, a]
}

/// The light palette.
pub open spec fn is_light(t: ColorTheme) -> bool {
    &&& t.canvas_bg@ == rgba(251, 251, 251, 255)
    &&& t.grid_dot@ == rgba(158, 158, 158, 255)
    &&& t.ink@ == rgba(18, 18, 18, 255)
    &&& t.highlight@ == rgba(255, 220, 60, 110)
    &&& t.selection@ == rgba(255, 110, 30, 235)
    &&& t.marquee@ == rgba(120, 120, 180, 160)
    &&& t.link@ == rgba(60, 70, 90, 220)
    &&& t.card_inline_fill@ == rgba(255, 250, 222, 255)
    &&& t.card_index_fill@ == rgba(243, 240, 250, 255)
    &&& t.card_linked_fill@ == rgba(253, 253, 255, 255)
    &&& t.card_border@ == rgba(60, 60, 80, 255)
    &&& t.card_border_locked@ == rgba(80, 80, 120, 255)
    &&& t.card_shadow@ == rgba(40, 40, 60, 28)
    &&& t.text_default@ == rgba(18, 18, 18, 255)
    &&& t.text_weak@ == rgba(110, 110, 110, 255)
    &&& t.chrome_bg@ == rgba(252, 252, 252, 255)
    &&& t.chrome_panel_bg@ == rgba(248, 248, 250, 255)
    &&& t.chrome_border@ == rgba(220, 220, 224, 255)
    &&& t.chrome_hover_bg@ == rgba(220, 220, 220, 255)
    &&& t.chrome_active_bg@ == rgba(28, 28, 28, 255)
    &&& t.chrome_text@ == rgba(40, 40, 40, 255)
    &&& t.chrome_text_on_active@ == rgba(255, 255, 255, 255)
}

/// The dark palette.
pub open spec fn is_dark(t: ColorTheme) -> bool {
    &&& t.canvas_bg@ == rgba(22, 23, 26, 255)
    &&& t.grid_dot@ == rgba(70, 72, 78, 255)
    &&& t.ink@ == rgba(232, 232, 232, 255)
    &&& t.highlight@ == rgba(255, 210, 60, 100)
    &&& t.selection@ == rgba(255, 140, 60, 235)
    &&& t.marquee@ == rgba(150, 150, 210, 160)
    &&& t.link@ == rgba(180, 188, 210, 220)
    &&& t.card_inline_fill@ == rgba(42, 40, 30, 255)
    &&& t.card_index_fill@ == rgba(40, 38, 56, 255)
    &&& t.card_linked_fill@ == rgba(36, 38, 44, 255)
    &&& t.card_border@ == rgba(110, 112, 130, 255)
    &&& t.card_border_locked@ == rgba(150, 150, 190, 255)
    &&& t.card_shadow@ == rgba(0, 0, 0, 80)
    &&& t.text_default@ == rgba(232, 232, 232, 255)
    &&& t.text_weak@ == rgba(150, 150, 158, 255)
    &&& t.chrome_bg@ == rgba(28, 30, 34, 255)
    &&& t.chrome_panel_bg@ == rgba(22, 24, 28, 255)
    &&& t.chrome_border@ == rgba(55, 58, 66, 255)
    &&& t.chrome_hover_bg@ == rgba(50, 54, 60, 255)
    &&& t.chrome_active_bg@ == rgba(235, 235, 235, 255)
    &&& t.chrome_text@ == rgba(220, 220, 220, 255)
    &&& t.chrome_text_on_active@ == rgba(20, 20, 20, 255)
}

impl ColorTheme {
    /// The light palette.
    pub fn light() -> (t: ColorTheme)
        ensures
            is_light(t),
    {
        let t = ColorTheme {
            canvas_bg: [251, 251, 251, 255],
            grid_dot: [158, 158, 158, 255],
            ink: [18, 18, 18, 255],
            highlight: [255, 220, 60, 110],
            selection: [255, 110, 30, 235],
            marquee: [120, 120, 180, 160],
            link: [60, 70, 90, 220],
            card_inline_fill: [255, 250, 222, 255],
            card_index_fill: [243, 240, 250, 255],
            card_linked_fill: [253, 253, 255, 255],
            card_border: [60, 60, 80, 255],
            card_border_locked: [80, 80, 120, 255],
            card_shadow: [40, 40, 60, 28],
            text_default: [18, 18, 18, 255],
            text_weak: [110, 110, 110, 255],
            chrome_bg: [252, 252, 252, 255],
            chrome_panel_bg: [248, 248, 250, 255],
            chrome_border: [220, 220, 224, 255],
            chrome_hover_bg: [220, 220, 220, 255],
            chrome_active_bg: [28, 28, 28, 255],
            chrome_text: [40, 40, 40, 255],
            chrome_text_on_active: [255, 255, 255, 255],
        };
        assert(is_light(t)) by {
            assert(t.canvas_bg@ =~= rgba(251, 251, 251, 255));
            assert(t.grid_dot@ =~= rgba(158, 158, 158, 255));
            assert(t.ink@ =~= rgba(18, 18, 18, 255));
            assert(t.highlight@ =~= rgba(255, 220, 60, 110));
            assert(t.selection@ =~= rgba(255, 110, 30, 235));
            assert(t.marquee@ =~= rgba(120, 120, 180, 160));
            assert(t.link@ =~= rgba(60, 70, 90, 220));
            assert(t.card_inline_fill@ =~= rgba(255, 250, 222, 255));
            assert(t.card_index_fill@ =~= rgba(243, 240, 250, 255));
            assert(t.card_linked_fill@ =~= rgba(253, 253, 255, 255));
            assert(t.card_border@ =~= rgba(60, 60, 80, 255));
            assert(t.card_border_locked@ =~= rgba(80, 80, 120, 255));
            assert(t.card_shadow@ =~= rgba(40, 40, 60, 28));
            assert(t.text_default@ =~= rgba(18, 18, 18, 255));
            assert(t.text_weak@ =~= rgba(110, 110, 110, 255));
            assert(t.chrome_bg@ =~= rgba(252, 252, 252, 255));
            assert(t.chrome_panel_bg@ =~= rgba(248, 248, 250, 255));
            assert(t.chrome_border@ =~= rgba(220, 220, 224, 255));
            assert(t.chrome_hover_bg@ =~= rgba(220, 220, 220, 255));
            assert(t.chrome_active_bg@ =~= rgba(28, 28, 28, 255));
            assert(t.chrome_text@ =~= rgba(40, 40, 40, 255));
            assert(t.chrome_text_on_active@ =~= rgba(255, 255, 255, 255));
        }
        t
    }

    /// The dark palette.
    pub fn dark() -> (t: ColorTheme)
        ensures
            is_dark(t),
    {
        let t = ColorTheme {
            canvas_bg: [22, 23, 26, 255],
            grid_dot: [70, 72, 78, 255],
            ink: [232, 232, 232, 255],
            highlight: [255, 210, 60, 100],
            selection: [255, 140, 60, 235],
            marquee: [150, 150, 210, 160],
            link: [180, 188, 210, 220],
            card_inline_fill: [42, 40, 30, 255],
            card_index_fill: [40, 38, 56, 255],
            card_linked_fill: [36, 38, 44, 255],
            card_border: [110, 112, 130, 255],
            card_border_locked: [150, 150, 190, 255],
            card_shadow: [0, 0, 0, 80],
            text_default: [232, 232, 232, 255],
            text_weak: [150, 150, 158, 255],
            chrome_bg: [28, 30, 34, 255],
            chrome_panel_bg: [22, 24, 28, 255],
            chrome_border: [55, 58, 66, 255],
            chrome_hover_bg: [50, 54, 60, 255],
            chrome_active_bg: [235, 235, 235, 255],
            chrome_text: [220, 220, 220, 255],
            chrome_text_on_active: [20, 20, 20, 255],
        };
        assert(is_dark(t)) by {
            assert(t.canvas_bg@ =~= rgba(22, 23, 26, 255));
            assert(t.grid_dot@ =~= rgba(70, 72, 78, 255));
            assert(t.ink@ =~= rgba(232, 232, 232, 255));
            assert(t.highlight@ =~= rgba(255, 210, 60, 100));
            assert(t.selection@ =~= rgba(255, 140, 60, 235));
            assert(t.marquee@ =~= rgba(150, 150, 210, 160));
            assert(t.link@ =~= rgba(180, 188, 210, 220));
            assert(t.card_inline_fill@ =~= rgba(42, 40, 30, 255));
            assert(t.card_index_fill@ =~= rgba(40, 38, 56, 255));
            assert(t.card_linked_fill@ =~= rgba(36, 38, 44, 255));
            assert(t.card_border@ =~= rgba(110, 112, 130, 255));
            assert(t.card_border_locked@ =~= rgba(150, 150, 190, 255));
            assert(t.card_shadow@ =~= rgba(0, 0, 0, 80));
            assert(t.text_default@ =~= rgba(232, 232, 232, 255));
            assert(t.text_weak@ =~= rgba(150, 150, 158, 255));
            assert(t.chrome_bg@ =~= rgba(28, 30, 34, 255));
            assert(t.chrome_panel_bg@ =~= rgba(22, 24, 28, 255));
            assert(t.chrome_border@ =~= rgba(55, 58, 66, 255));
            assert(t.chrome_hover_bg@ =~= rgba(50, 54, 60, 255));
            assert(t.chrome_active_bg@ =~= rgba(235, 235, 235, 255));
            assert(t.chrome_text@ =~= rgba(220, 220, 220, 255));
            assert(t.chrome_text_on_active@ =~= rgba(20, 20, 20, 255));
        }
        t
    }
}

impl ThemeName {
    pub fn label(self) -> (s: &'static str)
        ensures
            s@ == (match self {
                ThemeName::Light => "Light"@,
                ThemeName::Dark => "Dark"@,
            }),
    {
        match self {
            ThemeName::Light => "Light",
            ThemeName::Dark => "Dark",
        }
    }

    /// The palette of a theme.
    pub fn theme(self) -> (t: ColorTheme)
        ensures
            self == ThemeName::Light ==> is_light(t),
            self == ThemeName::Dark ==> is_dark(t),
    {
        match self {
            ThemeName::Light => ColorTheme::light(),
            ThemeName::Dark => ColorTheme::dark(),
        }
    }

    /// The other theme (what the theme toggle switches to).
    pub fn toggled(self) -> (t: ThemeName)
        ensures
            t != self,
    {
        match self {
            ThemeName::Light => ThemeName::Dark,
            ThemeName::Dark => ThemeName::Light,
        }
    }
}

} // verus!
