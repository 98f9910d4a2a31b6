use vstd::prelude::*;

verus! {

/// Colour scheme of the interface.
#[derive(Debug, Clone, Copy, PartialEq, Eq, Structural)]
pub enum ThemeMode {
    Dark,
    Light,
}

/// Editor, preview and export preferences persisted between sessions.
#[derive(Debug, Clone, Copy, PartialEq, Eq, Structural)]
pub struct Settings {
    pub tab_width: usize,
    pub auto_pairs: bool,
    pub auto_indent: bool,
    pub wrap_lines: bool,
    pub show_gutter: bool,
    pub editor_font_size: u16,
    pub preview_zoom: u16,
    pub pdf_tagged: bool,
    pub pdf_pretty: bool,
    pub svg_render_bleed: bool,
    pub svg_pretty: bool,
    pub svg_page_gap: u16,
    pub html_pretty: bool,
    pub theme: ThemeMode,
}

/// `value` limited to the closed interval `[low, high]`.
pub open spec fn clamp_int(value: int, low: int, high: int) -> int {
    if value < low {
        low
    } else if value > high {
        high
    } else {
        value
    }
}

/// The preferences used when nothing was stored yet.
pub open spec fn default_settings() -> Settings {
    Settings {
        tab_width: 4,
        auto_pairs: true,
        auto_indent: true,
        wrap_lines: false,
        show_gutter: true,
        editor_font_size: 16,
        preview_zoom: 100,
        pdf_tagged: true,
        pdf_pretty: false,
        svg_render_bleed: false,
        svg_pretty: false,
        svg_page_gap: 12,
        html_pretty: true,
        theme: ThemeMode::Dark,
    }
}

/// True when every bounded preference lies inside its accepted interval.
pub open spec fn settings_in_bounds(s: Settings) -> bool {
    &&& 1 <= s.tab_width <= 8
    &&& 10 <= s.editor_font_size <= 30
    &&& 25 <= s.preview_zoom <= 300
    &&& s.svg_page_gap <= 72
}

/// The settings that `validate` produces from `s`: the four bounded values
/// clamped, every other preference kept.
pub open spec fn validated_settings(s: Settings) -> Settings {
    Settings {
        tab_width: clamp_int(s.tab_width as int, 1, 8) as usize,
        editor_font_size: clamp_int(s.editor_font_size as int, 10, 30) as u16,
        preview_zoom: clamp_int(s.preview_zoom as int, 25, 300) as u16,
        svg_page_gap: if s.svg_page_gap > 72 { 72 } else { s.svg_page_gap },
        ..s
    }
}

impl Default for Settings {
    fn default() -> (s: Self)
        ensures
            s == default_settings(),
    {
        Settings {
            tab_width: 4,
            auto_pairs: true,
            auto_indent: true,
            wrap_lines: false,
            show_gutter: true,
            editor_font_size: 16,
            preview_zoom: 100,
            pdf_tagged: true,
            pdf_pretty: false,
            svg_render_bleed: false,
            svg_pretty: false,
            svg_page_gap: 12,
            html_pretty: true,
            theme: ThemeMode::Dark,
        }
    }
}

fn clamp_usize(value: usize, low: usize, high: usize) -> (r: usize)
    requires
        low <= high,
    ensures
        r == clamp_int(value as int, low as int, high as int),
{
    if value < low {
        low
    } else if value > high {
        high
    } else {
        value
    }
}

fn clamp_u16(value: u16, low: u16, high: u16) -> (r: u16)
    requires
        low <= high,
    ensures
        r == clamp_int(value as int, low as int, high as int),
{
    if value < low {
        low
    } else if value > high {
        high
    } else {
        value
    }
}

impl Settings {
    /// Bounds the values read from disk to the ranges the interface offers.
    pub fn validate(self) -> (r: Self)
        ensures
            r == validated_settings(self),
            settings_in_bounds(r),
    {
        let mut s = self;
        s.tab_width = clamp_usize(s.tab_width, 1, 8);
        s.editor_font_size = clamp_u16(s.editor_font_size, 10, 30);
        s.preview_zoom = clamp_u16(s.preview_zoom, 25, 300);
        s.svg_page_gap = if s.svg_page_gap > 72 { 72 } else { s.svg_page_gap };
        s
    }
}

/// Validation changes nothing in settings that are already in bounds, and
/// validating twice is the same as validating once.
pub proof fn law_validation_is_idempotent(s: Settings)
    ensures
        settings_in_bounds(s) ==> validated_settings(s) == s,
        validated_settings(validated_settings(s)) == validated_settings(s),
        settings_in_bounds(default_settings()),
{
}

} // verus!
