//! The looks the app can wear, by name.
//!
//! Each theme's colours are the drawing's business; here is which themes
//! there are, what they are called, and the word each is written as in the
//! settings file, which is the same word Tesseract writes.

use vstd::prelude::*;

use crate::text::{chars_of, is_str};

verus! {

#[derive(Clone, Copy, PartialEq, Eq, Debug, Structural)]
pub enum ThemeId {
    Zen,
    Ember,
    Frostbite,
    Bloodmoon,
    Void,
    /// Northstar's own addition: orange into magenta into violet, on
    /// JetBrains' near-black.
    JetBrains,
}

/// The word a theme is written as in the settings file.
pub open spec fn theme_slug(t: ThemeId) -> Seq<char> {
    match t {
        ThemeId::Zen => "zen"@,
        ThemeId::Ember => "ember"@,
        ThemeId::Frostbite => "frostbite"@,
        ThemeId::Bloodmoon => "bloodmoon"@,
        ThemeId::Void => "void"@,
        ThemeId::JetBrains => "jetbrains"@,
    }
}

/// The theme a word names, if it names one.
pub open spec fn theme_from(s: Seq<char>) -> Option<ThemeId> {
    if s == "zen"@ {
        Some(ThemeId::Zen)
    } else if s == "ember"@ {
        Some(ThemeId::Ember)
    } else if s == "frostbite"@ {
        Some(ThemeId::Frostbite)
    } else if s == "bloodmoon"@ {
        Some(ThemeId::Bloodmoon)
    } else if s == "void"@ {
        Some(ThemeId::Void)
    } else if s == "jetbrains"@ {
        Some(ThemeId::JetBrains)
    } else {
        None
    }
}

impl Default for ThemeId {
    fn default() -> (r: ThemeId)
        ensures
            r == ThemeId::Zen,
    {
        ThemeId::Zen
    }
}

impl ThemeId {
    pub fn name(self) -> (r: &'static str)
        ensures
            r@ == (match self {
                ThemeId::Zen => "Zen"@,
                ThemeId::Ember => "Ember"@,
                ThemeId::Frostbite => "Frostbite"@,
                ThemeId::Bloodmoon => "Bloodmoon"@,
                ThemeId::Void => "Void"@,
                ThemeId::JetBrains => "JetBrains"@,
            }),
    {
        match self {
            ThemeId::Zen => "Zen",
            ThemeId::Ember => "Ember",
            ThemeId::Frostbite => "Frostbite",
            ThemeId::Bloodmoon => "Bloodmoon",
            ThemeId::Void => "Void",
            ThemeId::JetBrains => "JetBrains",
        }
    }

    pub fn blurb(self) -> (r: &'static str)
        ensures
            r@ == (match self {
                ThemeId::Zen => "Matcha and copper"@,
                ThemeId::Ember => "Autumn warmth, gold embers"@,
                ThemeId::Frostbite => "Winter light, ice blue"@,
                ThemeId::Bloodmoon => "Deep crimson"@,
                ThemeId::Void => "Violet dark"@,
                ThemeId::JetBrains => "Orange, magenta, violet"@,
            }),
    {
        match self {
            ThemeId::Zen => "Matcha and copper",
            ThemeId::Ember => "Autumn warmth, gold embers",
            ThemeId::Frostbite => "Winter light, ice blue",
            ThemeId::Bloodmoon => "Deep crimson",
            ThemeId::Void => "Violet dark",
            ThemeId::JetBrains => "Orange, magenta, violet",
        }
    }

    pub fn slug(self) -> (r: &'static str)
        ensures
            r@ == theme_slug(self),
    {
        match self {
            ThemeId::Zen => "zen",
            ThemeId::Ember => "ember",
            ThemeId::Frostbite => "frostbite",
            ThemeId::Bloodmoon => "bloodmoon",
            ThemeId::Void => "void",
            ThemeId::JetBrains => "jetbrains",
        }
    }

    /// The theme whose slug is `s`, trying them in the palette's order.
    pub fn from_slug(s: &str) -> (r: Option<ThemeId>)
        ensures
            r == theme_from(s@),
    {
        let c = chars_of(s);
        let c = c.as_slice();
        if is_str(c, "zen") {
            Some(ThemeId::Zen)
        } else if is_str(c, "ember") {
            Some(ThemeId::Ember)
        } else if is_str(c, "frostbite") {
            Some(ThemeId::Frostbite)
        } else if is_str(c, "bloodmoon") {
            Some(ThemeId::Bloodmoon)
        } else if is_str(c, "void") {
            Some(ThemeId::Void)
        } else if is_str(c, "jetbrains") {
            Some(ThemeId::JetBrains)
        } else {
            None
        }
    }
}

/// A theme written to the settings file reads back as itself.
pub proof fn law_theme_slug_round_trip(t: ThemeId)
    ensures
        theme_from(theme_slug(t)) == Some(t),
{
    reveal_strlit("zen");
    reveal_strlit("ember");
    reveal_strlit("frostbite");
    reveal_strlit("bloodmoon");
    reveal_strlit("void");
    reveal_strlit("jetbrains");
    assert("zen"@.len() != "ember"@.len());
    assert("zen"@.len() != "frostbite"@.len());
    assert("zen"@.len() != "bloodmoon"@.len());
    assert("zen"@.len() != "void"@.len());
    assert("zen"@.len() != "jetbrains"@.len());
    assert("ember"@.len() != "frostbite"@.len());
    assert("ember"@.len() != "bloodmoon"@.len());
    assert("ember"@.len() != "void"@.len());
    assert("ember"@.len() != "jetbrains"@.len());
    assert("frostbite"@[0] != "bloodmoon"@[0]);
    assert("frostbite"@.len() != "void"@.len());
    assert("frostbite"@[0] != "jetbrains"@[0]);
    assert("bloodmoon"@.len() != "void"@.len());
    assert("bloodmoon"@[0] != "jetbrains"@[0]);
    assert("void"@.len() != "jetbrains"@.len());
}

// ------------------------------------------------------------ colours --

/// A colour, eight bits a channel, alpha last.
#[derive(Clone, Copy, PartialEq, Eq, Debug, Structural)]
pub struct Rgba {
    pub r: u8,
    pub g: u8,
    pub b: u8,
    pub a: u8,
}

/// Every colour the app draws with, for one theme in one cast.
#[derive(Clone, Copy, Debug)]
pub struct Palette {
    pub id: ThemeId,
    pub dark: bool,
    pub backdrop: Rgba,
    pub glass: Rgba,
    pub glass_hi: Rgba,
    pub glass_line: Rgba,
    pub glass_edge: Rgba,
    pub solid: Rgba,
    pub solid_hi: Rgba,
    pub sunken: Rgba,
    pub raised: Rgba,
    pub line: Rgba,
    pub line_strong: Rgba,
    pub text: Rgba,
    pub text_dim: Rgba,
    pub text_faint: Rgba,
    pub ink: Rgba,
    pub primary: Rgba,
    pub primary_light: Rgba,
    pub primary_deep: Rgba,
    pub primary_quiet: Rgba,
    pub primary_quiet_hi: Rgba,
    pub prim_grad: (Rgba, Rgba),
    pub sec: Rgba,
    pub sec_light: Rgba,
    pub sec_deep: Rgba,
    pub sec_grad: (Rgba, Rgba),
    pub danger: Rgba,
    pub danger_light: Rgba,
    pub warn: Rgba,
    pub ok: Rgba,
    /// The six card and speaker colours.
    pub groups: [Rgba; 6],
}

impl Palette {
    /// The group colour for `hue`, round the six.
    pub fn group(&self, hue: usize) -> (r: Rgba)
        ensures
            r == self.groups[(hue % 6) as int],
    {
        self.groups[hue % 6]
    }
}

/// Zen, dark.
pub open spec fn zen_dark_spec() -> Palette {
    Palette {
        id: ThemeId::Zen,
        dark: true,
        backdrop: Rgba { r: 0x07, g: 0x0B, b: 0x09, a: 255 },
        glass: Rgba { r: 0x0E, g: 0x14, b: 0x11, a: 255 },
        glass_hi: Rgba { r: 0x16, g: 0x1F, b: 0x1A, a: 255 },
        glass_line: Rgba { r: 0x2A, g: 0x38, b: 0x31, a: 255 },
        glass_edge: Rgba { r: 0x4A, g: 0x60, b: 0x55, a: 255 },
        solid: Rgba { r: 0x0D, g: 0x12, b: 0x0F, a: 255 },
        solid_hi: Rgba { r: 0x15, g: 0x1C, b: 0x18, a: 255 },
        sunken: Rgba { r: 0x08, g: 0x0C, b: 0x0A, a: 255 },
        raised: Rgba { r: 0x1A, g: 0x23, b: 0x1E, a: 255 },
        line: Rgba { r: 0x20, g: 0x2A, b: 0x25, a: 255 },
        line_strong: Rgba { r: 0x33, g: 0x41, b: 0x3A, a: 255 },
        text: Rgba { r: 0xE8, g: 0xED, b: 0xE9, a: 255 },
        text_dim: Rgba { r: 0x9D, g: 0xA9, b: 0xA2, a: 255 },
        text_faint: Rgba { r: 0x66, g: 0x71, b: 0x6B, a: 255 },
        ink: Rgba { r: 0x06, g: 0x17, b: 0x0F, a: 255 },
        primary: Rgba { r: 0x7F, g: 0xB3, b: 0x94, a: 255 },
        primary_light: Rgba { r: 0xA9, g: 0xD4, b: 0xBB, a: 255 },
        primary_deep: Rgba { r: 0x35, g: 0x60, b: 0x4D, a: 255 },
        primary_quiet: Rgba { r: 0x0F, g: 0x1D, b: 0x18, a: 255 },
        primary_quiet_hi: Rgba { r: 0x15, g: 0x28, b: 0x21, a: 255 },
        prim_grad: (Rgba { r: 0x3E, g: 0x7E, b: 0x5C, a: 255 }, Rgba { r: 0xAE, g: 0xD9, b: 0xC0, a: 255 }),
        sec: Rgba { r: 0xC0, g: 0x85, b: 0x52, a: 255 },
        sec_light: Rgba { r: 0xE8, g: 0xB0, b: 0x74, a: 255 },
        sec_deep: Rgba { r: 0x6B, g: 0x3A, b: 0x18, a: 255 },
        sec_grad: (Rgba { r: 0x8A, g: 0x4B, b: 0x1E, a: 255 }, Rgba { r: 0xEC, g: 0xBA, b: 0x84, a: 255 }),
        danger: Rgba { r: 0xE2, g: 0x53, b: 0x40, a: 255 },
        danger_light: Rgba { r: 0xFF, g: 0x7A, b: 0x63, a: 255 },
        warn: Rgba { r: 0xF0, g: 0xB4, b: 0x3C, a: 255 },
        ok: Rgba { r: 0x7F, g: 0xB3, b: 0x94, a: 255 },
        groups: [
            Rgba { r: 0x7F, g: 0xB3, b: 0x94, a: 255 },
            Rgba { r: 0xC0, g: 0x85, b: 0x52, a: 255 },
            Rgba { r: 0x8F, g: 0xA8, b: 0xC4, a: 255 },
            Rgba { r: 0xC4, g: 0x9A, b: 0xB8, a: 255 },
            Rgba { r: 0xC4, g: 0x70, b: 0x5C, a: 255 },
            Rgba { r: 0x9C, g: 0xC2, b: 0x7F, a: 255 },
        ],
    }
}

fn zen_dark() -> (p: Palette)
    ensures
        p == zen_dark_spec(),
{
    Palette {
        id: ThemeId::Zen,
        dark: true,
        backdrop: Rgba { r: 0x07, g: 0x0B, b: 0x09, a: 255 },
        glass: Rgba { r: 0x0E, g: 0x14, b: 0x11, a: 255 },
        glass_hi: Rgba { r: 0x16, g: 0x1F, b: 0x1A, a: 255 },
        glass_line: Rgba { r: 0x2A, g: 0x38, b: 0x31, a: 255 },
        glass_edge: Rgba { r: 0x4A, g: 0x60, b: 0x55, a: 255 },
        solid: Rgba { r: 0x0D, g: 0x12, b: 0x0F, a: 255 },
        solid_hi: Rgba { r: 0x15, g: 0x1C, b: 0x18, a: 255 },
        sunken: Rgba { r: 0x08, g: 0x0C, b: 0x0A, a: 255 },
        raised: Rgba { r: 0x1A, g: 0x23, b: 0x1E, a: 255 },
        line: Rgba { r: 0x20, g: 0x2A, b: 0x25, a: 255 },
        line_strong: Rgba { r: 0x33, g: 0x41, b: 0x3A, a: 255 },
        text: Rgba { r: 0xE8, g: 0xED, b: 0xE9, a: 255 },
        text_dim: Rgba { r: 0x9D, g: 0xA9, b: 0xA2, a: 255 },
        text_faint: Rgba { r: 0x66, g: 0x71, b: 0x6B, a: 255 },
        ink: Rgba { r: 0x06, g: 0x17, b: 0x0F, a: 255 },
        primary: Rgba { r: 0x7F, g: 0xB3, b: 0x94, a: 255 },
        primary_light: Rgba { r: 0xA9, g: 0xD4, b: 0xBB, a: 255 },
        primary_deep: Rgba { r: 0x35, g: 0x60, b: 0x4D, a: 255 },
        primary_quiet: Rgba { r: 0x0F, g: 0x1D, b: 0x18, a: 255 },
        primary_quiet_hi: Rgba { r: 0x15, g: 0x28, b: 0x21, a: 255 },
        prim_grad: (Rgba { r: 0x3E, g: 0x7E, b: 0x5C, a: 255 }, Rgba { r: 0xAE, g: 0xD9, b: 0xC0, a: 255 }),
        sec: Rgba { r: 0xC0, g: 0x85, b: 0x52, a: 255 },
        sec_light: Rgba { r: 0xE8, g: 0xB0, b: 0x74, a: 255 },
        sec_deep: Rgba { r: 0x6B, g: 0x3A, b: 0x18, a: 255 },
        sec_grad: (Rgba { r: 0x8A, g: 0x4B, b: 0x1E, a: 255 }, Rgba { r: 0xEC, g: 0xBA, b: 0x84, a: 255 }),
        danger: Rgba { r: 0xE2, g: 0x53, b: 0x40, a: 255 },
        danger_light: Rgba { r: 0xFF, g: 0x7A, b: 0x63, a: 255 },
        warn: Rgba { r: 0xF0, g: 0xB4, b: 0x3C, a: 255 },
        ok: Rgba { r: 0x7F, g: 0xB3, b: 0x94, a: 255 },
        groups: [
            Rgba { r: 0x7F, g: 0xB3, b: 0x94, a: 255 },
            Rgba { r: 0xC0, g: 0x85, b: 0x52, a: 255 },
            Rgba { r: 0x8F, g: 0xA8, b: 0xC4, a: 255 },
            Rgba { r: 0xC4, g: 0x9A, b: 0xB8, a: 255 },
            Rgba { r: 0xC4, g: 0x70, b: 0x5C, a: 255 },
            Rgba { r: 0x9C, g: 0xC2, b: 0x7F, a: 255 },
        ],
    }
}

/// Zen, light.
pub open spec fn zen_light_spec() -> Palette {
    Palette {
        id: ThemeId::Zen,
        dark: false,
        backdrop: Rgba { r: 0xDD, g: 0xE5, b: 0xE0, a: 255 },
        glass: Rgba { r: 0xFA, g: 0xFD, b: 0xFB, a: 255 },
        glass_hi: Rgba { r: 0xFF, g: 0xFF, b: 0xFF, a: 255 },
        glass_line: Rgba { r: 0xD2, g: 0xDE, b: 0xD6, a: 255 },
        glass_edge: Rgba { r: 0xFF, g: 0xFF, b: 0xFF, a: 255 },
        solid: Rgba { r: 0xFF, g: 0xFF, b: 0xFF, a: 255 },
        solid_hi: Rgba { r: 0xF2, g: 0xF7, b: 0xF4, a: 255 },
        sunken: Rgba { r: 0xE7, g: 0xEE, b: 0xEA, a: 255 },
        raised: Rgba { r: 0xF7, g: 0xFA, b: 0xF8, a: 255 },
        line: Rgba { r: 0xDC, g: 0xE4, b: 0xDF, a: 255 },
        line_strong: Rgba { r: 0xB6, g: 0xC4, b: 0xBC, a: 255 },
        text: Rgba { r: 0x16, g: 0x20, b: 0x1A, a: 255 },
        text_dim: Rgba { r: 0x4E, g: 0x5A, b: 0x53, a: 255 },
        text_faint: Rgba { r: 0x7C, g: 0x88, b: 0x80, a: 255 },
        ink: Rgba { r: 0xFF, g: 0xFF, b: 0xFF, a: 255 },
        primary: Rgba { r: 0x2F, g: 0x7A, b: 0x57, a: 255 },
        primary_light: Rgba { r: 0x48, g: 0xA2, b: 0x77, a: 255 },
        primary_deep: Rgba { r: 0x1B, g: 0x4A, b: 0x34, a: 255 },
        primary_quiet: Rgba { r: 0xE4, g: 0xF2, b: 0xEA, a: 255 },
        primary_quiet_hi: Rgba { r: 0xD5, g: 0xEB, b: 0xDE, a: 255 },
        prim_grad: (Rgba { r: 0x25, g: 0x63, b: 0x46, a: 255 }, Rgba { r: 0x63, g: 0xB9, b: 0x8D, a: 255 }),
        sec: Rgba { r: 0xA2, g: 0x66, b: 0x2F, a: 255 },
        sec_light: Rgba { r: 0xC9, g: 0x8B, b: 0x4C, a: 255 },
        sec_deep: Rgba { r: 0x6B, g: 0x3A, b: 0x18, a: 255 },
        sec_grad: (Rgba { r: 0x8A, g: 0x4B, b: 0x1E, a: 255 }, Rgba { r: 0xD7, g: 0x9B, b: 0x58, a: 255 }),
        danger: Rgba { r: 0xD0, g: 0x3A, b: 0x22, a: 255 },
        danger_light: Rgba { r: 0xE8, g: 0x5B, b: 0x3E, a: 255 },
        warn: Rgba { r: 0xA9, g: 0x7A, b: 0x1E, a: 255 },
        ok: Rgba { r: 0x2F, g: 0x7A, b: 0x57, a: 255 },
        groups: [
            Rgba { r: 0x2F, g: 0x7A, b: 0x57, a: 255 },
            Rgba { r: 0xA2, g: 0x66, b: 0x2F, a: 255 },
            Rgba { r: 0x44, g: 0x6C, b: 0x99, a: 255 },
            Rgba { r: 0x93, g: 0x4F, b: 0x83, a: 255 },
            Rgba { r: 0xB2, g: 0x4B, b: 0x38, a: 255 },
            Rgba { r: 0x5F, g: 0x8A, b: 0x30, a: 255 },
        ],
    }
}

fn zen_light() -> (p: Palette)
    ensures
        p == zen_light_spec(),
{
    Palette {
        id: ThemeId::Zen,
        dark: false,
        backdrop: Rgba { r: 0xDD, g: 0xE5, b: 0xE0, a: 255 },
        glass: Rgba { r: 0xFA, g: 0xFD, b: 0xFB, a: 255 },
        glass_hi: Rgba { r: 0xFF, g: 0xFF, b: 0xFF, a: 255 },
        glass_line: Rgba { r: 0xD2, g: 0xDE, b: 0xD6, a: 255 },
        glass_edge: Rgba { r: 0xFF, g: 0xFF, b: 0xFF, a: 255 },
        solid: Rgba { r: 0xFF, g: 0xFF, b: 0xFF, a: 255 },
        solid_hi: Rgba { r: 0xF2, g: 0xF7, b: 0xF4, a: 255 },
        sunken: Rgba { r: 0xE7, g: 0xEE, b: 0xEA, a: 255 },
        raised: Rgba { r: 0xF7, g: 0xFA, b: 0xF8, a: 255 },
        line: Rgba { r: 0xDC, g: 0xE4, b: 0xDF, a: 255 },
        line_strong: Rgba { r: 0xB6, g: 0xC4, b: 0xBC, a: 255 },
        text: Rgba { r: 0x16, g: 0x20, b: 0x1A, a: 255 },
        text_dim: Rgba { r: 0x4E, g: 0x5A, b: 0x53, a: 255 },
        text_faint: Rgba { r: 0x7C, g: 0x88, b: 0x80, a: 255 },
        ink: Rgba { r: 0xFF, g: 0xFF, b: 0xFF, a: 255 },
        primary: Rgba { r: 0x2F, g: 0x7A, b: 0x57, a: 255 },
        primary_light: Rgba { r: 0x48, g: 0xA2, b: 0x77, a: 255 },
        primary_deep: Rgba { r: 0x1B, g: 0x4A, b: 0x34, a: 255 },
        primary_quiet: Rgba { r: 0xE4, g: 0xF2, b: 0xEA, a: 255 },
        primary_quiet_hi: Rgba { r: 0xD5, g: 0xEB, b: 0xDE, a: 255 },
        prim_grad: (Rgba { r: 0x25, g: 0x63, b: 0x46, a: 255 }, Rgba { r: 0x63, g: 0xB9, b: 0x8D, a: 255 }),
        sec: Rgba { r: 0xA2, g: 0x66, b: 0x2F, a: 255 },
        sec_light: Rgba { r: 0xC9, g: 0x8B, b: 0x4C, a: 255 },
        sec_deep: Rgba { r: 0x6B, g: 0x3A, b: 0x18, a: 255 },
        sec_grad: (Rgba { r: 0x8A, g: 0x4B, b: 0x1E, a: 255 }, Rgba { r: 0xD7, g: 0x9B, b: 0x58, a: 255 }),
        danger: Rgba { r: 0xD0, g: 0x3A, b: 0x22, a: 255 },
        danger_light: Rgba { r: 0xE8, g: 0x5B, b: 0x3E, a: 255 },
        warn: Rgba { r: 0xA9, g: 0x7A, b: 0x1E, a: 255 },
        ok: Rgba { r: 0x2F, g: 0x7A, b: 0x57, a: 255 },
        groups: [
            Rgba { r: 0x2F, g: 0x7A, b: 0x57, a: 255 },
            Rgba { r: 0xA2, g: 0x66, b: 0x2F, a: 255 },
            Rgba { r: 0x44, g: 0x6C, b: 0x99, a: 255 },
            Rgba { r: 0x93, g: 0x4F, b: 0x83, a: 255 },
            Rgba { r: 0xB2, g: 0x4B, b: 0x38, a: 255 },
            Rgba { r: 0x5F, g: 0x8A, b: 0x30, a: 255 },
        ],
    }
}

/// Ember, dark.
pub open spec fn ember_dark_spec() -> Palette {
    Palette {
        id: ThemeId::Ember,
        dark: true,
        backdrop: Rgba { r: 0x0B, g: 0x07, b: 0x05, a: 255 },
        glass: Rgba { r: 0x16, g: 0x0F, b: 0x0B, a: 255 },
        glass_hi: Rgba { r: 0x20, g: 0x16, b: 0x10, a: 255 },
        glass_line: Rgba { r: 0x3A, g: 0x2A, b: 0x1F, a: 255 },
        glass_edge: Rgba { r: 0x6A, g: 0x4C, b: 0x35, a: 255 },
        solid: Rgba { r: 0x12, g: 0x0C, b: 0x09, a: 255 },
        solid_hi: Rgba { r: 0x1B, g: 0x13, b: 0x0E, a: 255 },
        sunken: Rgba { r: 0x0C, g: 0x08, b: 0x06, a: 255 },
        raised: Rgba { r: 0x23, g: 0x19, b: 0x12, a: 255 },
        line: Rgba { r: 0x2C, g: 0x1F, b: 0x17, a: 255 },
        line_strong: Rgba { r: 0x48, g: 0x34, b: 0x27, a: 255 },
        text: Rgba { r: 0xF0, g: 0xE8, b: 0xE2, a: 255 },
        text_dim: Rgba { r: 0xAC, g: 0x9C, b: 0x90, a: 255 },
        text_faint: Rgba { r: 0x75, g: 0x66, b: 0x5C, a: 255 },
        ink: Rgba { r: 0x1A, g: 0x0A, b: 0x03, a: 255 },
        primary: Rgba { r: 0xC9, g: 0x74, b: 0x3F, a: 255 },
        primary_light: Rgba { r: 0xE8, g: 0xA0, b: 0x6A, a: 255 },
        primary_deep: Rgba { r: 0x5E, g: 0x2C, b: 0x18, a: 255 },
        primary_quiet: Rgba { r: 0x21, g: 0x11, b: 0x09, a: 255 },
        primary_quiet_hi: Rgba { r: 0x2E, g: 0x18, b: 0x0D, a: 255 },
        prim_grad: (Rgba { r: 0x5E, g: 0x2C, b: 0x18, a: 255 }, Rgba { r: 0xD9, g: 0x86, b: 0x4B, a: 255 }),
        sec: Rgba { r: 0xFF, g: 0x8A, b: 0x3D, a: 255 },
        sec_light: Rgba { r: 0xFF, g: 0xD1, b: 0x66, a: 255 },
        sec_deep: Rgba { r: 0xB4, g: 0x5A, b: 0x16, a: 255 },
        sec_grad: (Rgba { r: 0xFF, g: 0x7A, b: 0x2E, a: 255 }, Rgba { r: 0xFF, g: 0xD9, b: 0x7A, a: 255 }),
        danger: Rgba { r: 0xF2, g: 0x4B, b: 0x33, a: 255 },
        danger_light: Rgba { r: 0xFF, g: 0x86, b: 0x6B, a: 255 },
        warn: Rgba { r: 0xFF, g: 0xBC, b: 0x2E, a: 255 },
        ok: Rgba { r: 0x8F, g: 0xB5, b: 0x63, a: 255 },
        groups: [
            Rgba { r: 0xC9, g: 0x74, b: 0x3F, a: 255 },
            Rgba { r: 0xFF, g: 0xD1, b: 0x66, a: 255 },
            Rgba { r: 0xB5, g: 0x5A, b: 0x4A, a: 255 },
            Rgba { r: 0x8F, g: 0xA0, b: 0x5E, a: 255 },
            Rgba { r: 0xD0, g: 0x8A, b: 0x8A, a: 255 },
            Rgba { r: 0x9C, g: 0x6B, b: 0xB0, a: 255 },
        ],
    }
}

fn ember_dark() -> (p: Palette)
    ensures
        p == ember_dark_spec(),
{
    Palette {
        id: ThemeId::Ember,
        dark: true,
        backdrop: Rgba { r: 0x0B, g: 0x07, b: 0x05, a: 255 },
        glass: Rgba { r: 0x16, g: 0x0F, b: 0x0B, a: 255 },
        glass_hi: Rgba { r: 0x20, g: 0x16, b: 0x10, a: 255 },
        glass_line: Rgba { r: 0x3A, g: 0x2A, b: 0x1F, a: 255 },
        glass_edge: Rgba { r: 0x6A, g: 0x4C, b: 0x35, a: 255 },
        solid: Rgba { r: 0x12, g: 0x0C, b: 0x09, a: 255 },
        solid_hi: Rgba { r: 0x1B, g: 0x13, b: 0x0E, a: 255 },
        sunken: Rgba { r: 0x0C, g: 0x08, b: 0x06, a: 255 },
        raised: Rgba { r: 0x23, g: 0x19, b: 0x12, a: 255 },
        line: Rgba { r: 0x2C, g: 0x1F, b: 0x17, a: 255 },
        line_strong: Rgba { r: 0x48, g: 0x34, b: 0x27, a: 255 },
        text: Rgba { r: 0xF0, g: 0xE8, b: 0xE2, a: 255 },
        text_dim: Rgba { r: 0xAC, g: 0x9C, b: 0x90, a: 255 },
        text_faint: Rgba { r: 0x75, g: 0x66, b: 0x5C, a: 255 },
        ink: Rgba { r: 0x1A, g: 0x0A, b: 0x03, a: 255 },
        primary: Rgba { r: 0xC9, g: 0x74, b: 0x3F, a: 255 },
        primary_light: Rgba { r: 0xE8, g: 0xA0, b: 0x6A, a: 255 },
        primary_deep: Rgba { r: 0x5E, g: 0x2C, b: 0x18, a: 255 },
        primary_quiet: Rgba { r: 0x21, g: 0x11, b: 0x09, a: 255 },
        primary_quiet_hi: Rgba { r: 0x2E, g: 0x18, b: 0x0D, a: 255 },
        prim_grad: (Rgba { r: 0x5E, g: 0x2C, b: 0x18, a: 255 }, Rgba { r: 0xD9, g: 0x86, b: 0x4B, a: 255 }),
        sec: Rgba { r: 0xFF, g: 0x8A, b: 0x3D, a: 255 },
        sec_light: Rgba { r: 0xFF, g: 0xD1, b: 0x66, a: 255 },
        sec_deep: Rgba { r: 0xB4, g: 0x5A, b: 0x16, a: 255 },
        sec_grad: (Rgba { r: 0xFF, g: 0x7A, b: 0x2E, a: 255 }, Rgba { r: 0xFF, g: 0xD9, b: 0x7A, a: 255 }),
        danger: Rgba { r: 0xF2, g: 0x4B, b: 0x33, a: 255 },
        danger_light: Rgba { r: 0xFF, g: 0x86, b: 0x6B, a: 255 },
        warn: Rgba { r: 0xFF, g: 0xBC, b: 0x2E, a: 255 },
        ok: Rgba { r: 0x8F, g: 0xB5, b: 0x63, a: 255 },
        groups: [
            Rgba { r: 0xC9, g: 0x74, b: 0x3F, a: 255 },
            Rgba { r: 0xFF, g: 0xD1, b: 0x66, a: 255 },
            Rgba { r: 0xB5, g: 0x5A, b: 0x4A, a: 255 },
            Rgba { r: 0x8F, g: 0xA0, b: 0x5E, a: 255 },
            Rgba { r: 0xD0, g: 0x8A, b: 0x8A, a: 255 },
            Rgba { r: 0x9C, g: 0x6B, b: 0xB0, a: 255 },
        ],
    }
}

/// Ember, light.
pub open spec fn ember_light_spec() -> Palette {
    Palette {
        id: ThemeId::Ember,
        dark: false,
        backdrop: Rgba { r: 0xE9, g: 0xDE, b: 0xD3, a: 255 },
        glass: Rgba { r: 0xFF, g: 0xFA, b: 0xF5, a: 255 },
        glass_hi: Rgba { r: 0xFF, g: 0xFF, b: 0xFF, a: 255 },
        glass_line: Rgba { r: 0xE0, g: 0xCE, b: 0xBE, a: 255 },
        glass_edge: Rgba { r: 0xFF, g: 0xFF, b: 0xFF, a: 255 },
        solid: Rgba { r: 0xFF, g: 0xFD, b: 0xFB, a: 255 },
        solid_hi: Rgba { r: 0xF7, g: 0xEF, b: 0xE8, a: 255 },
        sunken: Rgba { r: 0xEF, g: 0xE4, b: 0xDA, a: 255 },
        raised: Rgba { r: 0xFF, g: 0xF6, b: 0xEF, a: 255 },
        line: Rgba { r: 0xE5, g: 0xD6, b: 0xC9, a: 255 },
        line_strong: Rgba { r: 0xC6, g: 0xAE, b: 0x9B, a: 255 },
        text: Rgba { r: 0x24, g: 0x16, b: 0x10, a: 255 },
        text_dim: Rgba { r: 0x5E, g: 0x4A, b: 0x3D, a: 255 },
        text_faint: Rgba { r: 0x8B, g: 0x75, b: 0x66, a: 255 },
        ink: Rgba { r: 0xFF, g: 0xFF, b: 0xFF, a: 255 },
        primary: Rgba { r: 0xA9, g: 0x52, b: 0x2A, a: 255 },
        primary_light: Rgba { r: 0xC9, g: 0x74, b: 0x3F, a: 255 },
        primary_deep: Rgba { r: 0x6E, g: 0x30, b: 0x16, a: 255 },
        primary_quiet: Rgba { r: 0xFA, g: 0xEB, b: 0xE0, a: 255 },
        primary_quiet_hi: Rgba { r: 0xF3, g: 0xDD, b: 0xCB, a: 255 },
        prim_grad: (Rgba { r: 0x6E, g: 0x30, b: 0x16, a: 255 }, Rgba { r: 0xC9, g: 0x74, b: 0x3F, a: 255 }),
        sec: Rgba { r: 0xE2, g: 0x70, b: 0x1A, a: 255 },
        sec_light: Rgba { r: 0xF0, g: 0xA9, b: 0x3A, a: 255 },
        sec_deep: Rgba { r: 0xA3, g: 0x4C, b: 0x10, a: 255 },
        sec_grad: (Rgba { r: 0xD9, g: 0x63, b: 0x1A, a: 255 }, Rgba { r: 0xF5, g: 0xB9, b: 0x42, a: 255 }),
        danger: Rgba { r: 0xB8, g: 0x38, b: 0x2C, a: 255 },
        danger_light: Rgba { r: 0xD6, g: 0x5C, b: 0x4C, a: 255 },
        warn: Rgba { r: 0xB0, g: 0x7C, b: 0x14, a: 255 },
        ok: Rgba { r: 0x53, g: 0x82, b: 0x3E, a: 255 },
        groups: [
            Rgba { r: 0xA9, g: 0x52, b: 0x2A, a: 255 },
            Rgba { r: 0xC9, g: 0x91, b: 0x1E, a: 255 },
            Rgba { r: 0x9E, g: 0x40, b: 0x36, a: 255 },
            Rgba { r: 0x6B, g: 0x7D, b: 0x36, a: 255 },
            Rgba { r: 0xA6, g: 0x5A, b: 0x5A, a: 255 },
            Rgba { r: 0x6E, g: 0x48, b: 0x8A, a: 255 },
        ],
    }
}

fn ember_light() -> (p: Palette)
    ensures
        p == ember_light_spec(),
{
    Palette {
        id: ThemeId::Ember,
        dark: false,
        backdrop: Rgba { r: 0xE9, g: 0xDE, b: 0xD3, a: 255 },
        glass: Rgba { r: 0xFF, g: 0xFA, b: 0xF5, a: 255 },
        glass_hi: Rgba { r: 0xFF, g: 0xFF, b: 0xFF, a: 255 },
        glass_line: Rgba { r: 0xE0, g: 0xCE, b: 0xBE, a: 255 },
        glass_edge: Rgba { r: 0xFF, g: 0xFF, b: 0xFF, a: 255 },
        solid: Rgba { r: 0xFF, g: 0xFD, b: 0xFB, a: 255 },
        solid_hi: Rgba { r: 0xF7, g: 0xEF, b: 0xE8, a: 255 },
        sunken: Rgba { r: 0xEF, g: 0xE4, b: 0xDA, a: 255 },
        raised: Rgba { r: 0xFF, g: 0xF6, b: 0xEF, a: 255 },
        line: Rgba { r: 0xE5, g: 0xD6, b: 0xC9, a: 255 },
        line_strong: Rgba { r: 0xC6, g: 0xAE, b: 0x9B, a: 255 },
        text: Rgba { r: 0x24, g: 0x16, b: 0x10, a: 255 },
        text_dim: Rgba { r: 0x5E, g: 0x4A, b: 0x3D, a: 255 },
        text_faint: Rgba { r: 0x8B, g: 0x75, b: 0x66, a: 255 },
        ink: Rgba { r: 0xFF, g: 0xFF, b: 0xFF, a: 255 },
        primary: Rgba { r: 0xA9, g: 0x52, b: 0x2A, a: 255 },
        primary_light: Rgba { r: 0xC9, g: 0x74, b: 0x3F, a: 255 },
        primary_deep: Rgba { r: 0x6E, g: 0x30, b: 0x16, a: 255 },
        primary_quiet: Rgba { r: 0xFA, g: 0xEB, b: 0xE0, a: 255 },
        primary_quiet_hi: Rgba { r: 0xF3, g: 0xDD, b: 0xCB, a: 255 },
        prim_grad: (Rgba { r: 0x6E, g: 0x30, b: 0x16, a: 255 }, Rgba { r: 0xC9, g: 0x74, b: 0x3F, a: 255 }),
        sec: Rgba { r: 0xE2, g: 0x70, b: 0x1A, a: 255 },
        sec_light: Rgba { r: 0xF0, g: 0xA9, b: 0x3A, a: 255 },
        sec_deep: Rgba { r: 0xA3, g: 0x4C, b: 0x10, a: 255 },
        sec_grad: (Rgba { r: 0xD9, g: 0x63, b: 0x1A, a: 255 }, Rgba { r: 0xF5, g: 0xB9, b: 0x42, a: 255 }),
        danger: Rgba { r: 0xB8, g: 0x38, b: 0x2C, a: 255 },
        danger_light: Rgba { r: 0xD6, g: 0x5C, b: 0x4C, a: 255 },
        warn: Rgba { r: 0xB0, g: 0x7C, b: 0x14, a: 255 },
        ok: Rgba { r: 0x53, g: 0x82, b: 0x3E, a: 255 },
        groups: [
            Rgba { r: 0xA9, g: 0x52, b: 0x2A, a: 255 },
            Rgba { r: 0xC9, g: 0x91, b: 0x1E, a: 255 },
            Rgba { r: 0x9E, g: 0x40, b: 0x36, a: 255 },
            Rgba { r: 0x6B, g: 0x7D, b: 0x36, a: 255 },
            Rgba { r: 0xA6, g: 0x5A, b: 0x5A, a: 255 },
            Rgba { r: 0x6E, g: 0x48, b: 0x8A, a: 255 },
        ],
    }
}

/// Frostbite, dark.
pub open spec fn frostbite_dark_spec() -> Palette {
    Palette {
        id: ThemeId::Frostbite,
        dark: true,
        backdrop: Rgba { r: 0x04, g: 0x07, b: 0x0B, a: 255 },
        glass: Rgba { r: 0x0B, g: 0x12, b: 0x1A, a: 255 },
        glass_hi: Rgba { r: 0x12, g: 0x1C, b: 0x26, a: 255 },
        glass_line: Rgba { r: 0x25, g: 0x36, b: 0x46, a: 255 },
        glass_edge: Rgba { r: 0x46, g: 0x66, b: 0x82, a: 255 },
        solid: Rgba { r: 0x0A, g: 0x10, b: 0x17, a: 255 },
        solid_hi: Rgba { r: 0x11, g: 0x1A, b: 0x23, a: 255 },
        sunken: Rgba { r: 0x07, g: 0x0C, b: 0x11, a: 255 },
        raised: Rgba { r: 0x17, g: 0x23, b: 0x2E, a: 255 },
        line: Rgba { r: 0x1D, g: 0x2B, b: 0x38, a: 255 },
        line_strong: Rgba { r: 0x31, g: 0x46, b: 0x5A, a: 255 },
        text: Rgba { r: 0xE6, g: 0xEE, b: 0xF5, a: 255 },
        text_dim: Rgba { r: 0x97, g: 0xA8, b: 0xB7, a: 255 },
        text_faint: Rgba { r: 0x63, g: 0x74, b: 0x84, a: 255 },
        ink: Rgba { r: 0x04, g: 0x12, b: 0x1B, a: 255 },
        primary: Rgba { r: 0x8F, g: 0xB8, b: 0xD9, a: 255 },
        primary_light: Rgba { r: 0xC2, g: 0xDC, b: 0xF0, a: 255 },
        primary_deep: Rgba { r: 0x2A, g: 0x42, b: 0x56, a: 255 },
        primary_quiet: Rgba { r: 0x0E, g: 0x1B, b: 0x26, a: 255 },
        primary_quiet_hi: Rgba { r: 0x15, g: 0x27, b: 0x35, a: 255 },
        prim_grad: (Rgba { r: 0x2A, g: 0x42, b: 0x56, a: 255 }, Rgba { r: 0xCF, g: 0xE6, b: 0xF5, a: 255 }),
        sec: Rgba { r: 0x35, g: 0xC6, b: 0xF4, a: 255 },
        sec_light: Rgba { r: 0x8A, g: 0xE9, b: 0xFF, a: 255 },
        sec_deep: Rgba { r: 0x0E, g: 0x6E, b: 0x93, a: 255 },
        sec_grad: (Rgba { r: 0x1F, g: 0xA6, b: 0xE0, a: 255 }, Rgba { r: 0x9D, g: 0xF0, b: 0xFF, a: 255 }),
        danger: Rgba { r: 0xF2, g: 0x43, b: 0x62, a: 255 },
        danger_light: Rgba { r: 0xFF, g: 0x76, b: 0x8E, a: 255 },
        warn: Rgba { r: 0xF5, g: 0xC8, b: 0x45, a: 255 },
        ok: Rgba { r: 0x5F, g: 0xC7, b: 0xA8, a: 255 },
        groups: [
            Rgba { r: 0x8F, g: 0xB8, b: 0xD9, a: 255 },
            Rgba { r: 0x35, g: 0xC6, b: 0xF4, a: 255 },
            Rgba { r: 0x9A, g: 0xB0, b: 0xE0, a: 255 },
            Rgba { r: 0x74, g: 0xD4, b: 0xC4, a: 255 },
            Rgba { r: 0xD9, g: 0x57, b: 0x6B, a: 255 },
            Rgba { r: 0xB8, g: 0xA8, b: 0xE8, a: 255 },
        ],
    }
}

fn frostbite_dark() -> (p: Palette)
    ensures
        p == frostbite_dark_spec(),
{
    Palette {
        id: ThemeId::Frostbite,
        dark: true,
        backdrop: Rgba { r: 0x04, g: 0x07, b: 0x0B, a: 255 },
        glass: Rgba { r: 0x0B, g: 0x12, b: 0x1A, a: 255 },
        glass_hi: Rgba { r: 0x12, g: 0x1C, b: 0x26, a: 255 },
        glass_line: Rgba { r: 0x25, g: 0x36, b: 0x46, a: 255 },
        glass_edge: Rgba { r: 0x46, g: 0x66, b: 0x82, a: 255 },
        solid: Rgba { r: 0x0A, g: 0x10, b: 0x17, a: 255 },
        solid_hi: Rgba { r: 0x11, g: 0x1A, b: 0x23, a: 255 },
        sunken: Rgba { r: 0x07, g: 0x0C, b: 0x11, a: 255 },
        raised: Rgba { r: 0x17, g: 0x23, b: 0x2E, a: 255 },
        line: Rgba { r: 0x1D, g: 0x2B, b: 0x38, a: 255 },
        line_strong: Rgba { r: 0x31, g: 0x46, b: 0x5A, a: 255 },
        text: Rgba { r: 0xE6, g: 0xEE, b: 0xF5, a: 255 },
        text_dim: Rgba { r: 0x97, g: 0xA8, b: 0xB7, a: 255 },
        text_faint: Rgba { r: 0x63, g: 0x74, b: 0x84, a: 255 },
        ink: Rgba { r: 0x04, g: 0x12, b: 0x1B, a: 255 },
        primary: Rgba { r: 0x8F, g: 0xB8, b: 0xD9, a: 255 },
        primary_light: Rgba { r: 0xC2, g: 0xDC, b: 0xF0, a: 255 },
        primary_deep: Rgba { r: 0x2A, g: 0x42, b: 0x56, a: 255 },
        primary_quiet: Rgba { r: 0x0E, g: 0x1B, b: 0x26, a: 255 },
        primary_quiet_hi: Rgba { r: 0x15, g: 0x27, b: 0x35, a: 255 },
        prim_grad: (Rgba { r: 0x2A, g: 0x42, b: 0x56, a: 255 }, Rgba { r: 0xCF, g: 0xE6, b: 0xF5, a: 255 }),
        sec: Rgba { r: 0x35, g: 0xC6, b: 0xF4, a: 255 },
        sec_light: Rgba { r: 0x8A, g: 0xE9, b: 0xFF, a: 255 },
        sec_deep: Rgba { r: 0x0E, g: 0x6E, b: 0x93, a: 255 },
        sec_grad: (Rgba { r: 0x1F, g: 0xA6, b: 0xE0, a: 255 }, Rgba { r: 0x9D, g: 0xF0, b: 0xFF, a: 255 }),
        danger: Rgba { r: 0xF2, g: 0x43, b: 0x62, a: 255 },
        danger_light: Rgba { r: 0xFF, g: 0x76, b: 0x8E, a: 255 },
        warn: Rgba { r: 0xF5, g: 0xC8, b: 0x45, a: 255 },
        ok: Rgba { r: 0x5F, g: 0xC7, b: 0xA8, a: 255 },
        groups: [
            Rgba { r: 0x8F, g: 0xB8, b: 0xD9, a: 255 },
            Rgba { r: 0x35, g: 0xC6, b: 0xF4, a: 255 },
            Rgba { r: 0x9A, g: 0xB0, b: 0xE0, a: 255 },
            Rgba { r: 0x74, g: 0xD4, b: 0xC4, a: 255 },
            Rgba { r: 0xD9, g: 0x57, b: 0x6B, a: 255 },
            Rgba { r: 0xB8, g: 0xA8, b: 0xE8, a: 255 },
        ],
    }
}

/// Frostbite, light.
pub open spec fn frostbite_light_spec() -> Palette {
    Palette {
        id: ThemeId::Frostbite,
        dark: false,
        backdrop: Rgba { r: 0xDB, g: 0xE6, b: 0xEF, a: 255 },
        glass: Rgba { r: 0xFB, g: 0xFD, b: 0xFF, a: 255 },
        glass_hi: Rgba { r: 0xFF, g: 0xFF, b: 0xFF, a: 255 },
        glass_line: Rgba { r: 0xCE, g: 0xDD, b: 0xE9, a: 255 },
        glass_edge: Rgba { r: 0xFF, g: 0xFF, b: 0xFF, a: 255 },
        solid: Rgba { r: 0xFF, g: 0xFF, b: 0xFF, a: 255 },
        solid_hi: Rgba { r: 0xF1, g: 0xF6, b: 0xFA, a: 255 },
        sunken: Rgba { r: 0xE4, g: 0xED, b: 0xF4, a: 255 },
        raised: Rgba { r: 0xF7, g: 0xFB, b: 0xFD, a: 255 },
        line: Rgba { r: 0xD7, g: 0xE2, b: 0xEB, a: 255 },
        line_strong: Rgba { r: 0xB0, g: 0xC2, b: 0xD1, a: 255 },
        text: Rgba { r: 0x10, g: 0x20, b: 0x2C, a: 255 },
        text_dim: Rgba { r: 0x48, g: 0x60, b: 0x6F, a: 255 },
        text_faint: Rgba { r: 0x7A, g: 0x8E, b: 0x9C, a: 255 },
        ink: Rgba { r: 0xFF, g: 0xFF, b: 0xFF, a: 255 },
        primary: Rgba { r: 0x2E, g: 0x6C, b: 0x96, a: 255 },
        primary_light: Rgba { r: 0x4A, g: 0x8F, b: 0xBE, a: 255 },
        primary_deep: Rgba { r: 0x1A, g: 0x3F, b: 0x58, a: 255 },
        primary_quiet: Rgba { r: 0xE3, g: 0xEF, b: 0xF7, a: 255 },
        primary_quiet_hi: Rgba { r: 0xD1, g: 0xE5, b: 0xF2, a: 255 },
        prim_grad: (Rgba { r: 0x1A, g: 0x3F, b: 0x58, a: 255 }, Rgba { r: 0x6F, g: 0xB0, b: 0xD8, a: 255 }),
        sec: Rgba { r: 0x0E, g: 0x9B, b: 0xC8, a: 255 },
        sec_light: Rgba { r: 0x4F, g: 0xC7, b: 0xEA, a: 255 },
        sec_deep: Rgba { r: 0x07, g: 0x5E, b: 0x7C, a: 255 },
        sec_grad: (Rgba { r: 0x0E, g: 0x9B, b: 0xC8, a: 255 }, Rgba { r: 0x6F, g: 0xDB, b: 0xF5, a: 255 }),
        danger: Rgba { r: 0xC0, g: 0x3D, b: 0x55, a: 255 },
        danger_light: Rgba { r: 0xDD, g: 0x64, b: 0x79, a: 255 },
        warn: Rgba { r: 0xA8, g: 0x86, b: 0x14, a: 255 },
        ok: Rgba { r: 0x1E, g: 0x8A, b: 0x6E, a: 255 },
        groups: [
            Rgba { r: 0x2E, g: 0x6C, b: 0x96, a: 255 },
            Rgba { r: 0x0E, g: 0x9B, b: 0xC8, a: 255 },
            Rgba { r: 0x4C, g: 0x60, b: 0xA8, a: 255 },
            Rgba { r: 0x1E, g: 0x8A, b: 0x6E, a: 255 },
            Rgba { r: 0xC0, g: 0x3D, b: 0x55, a: 255 },
            Rgba { r: 0x76, g: 0x5C, b: 0xB8, a: 255 },
        ],
    }
}

fn frostbite_light() -> (p: Palette)
    ensures
        p == frostbite_light_spec(),
{
    Palette {
        id: ThemeId::Frostbite,
        dark: false,
        backdrop: Rgba { r: 0xDB, g: 0xE6, b: 0xEF, a: 255 },
        glass: Rgba { r: 0xFB, g: 0xFD, b: 0xFF, a: 255 },
        glass_hi: Rgba { r: 0xFF, g: 0xFF, b: 0xFF, a: 255 },
        glass_line: Rgba { r: 0xCE, g: 0xDD, b: 0xE9, a: 255 },
        glass_edge: Rgba { r: 0xFF, g: 0xFF, b: 0xFF, a: 255 },
        solid: Rgba { r: 0xFF, g: 0xFF, b: 0xFF, a: 255 },
        solid_hi: Rgba { r: 0xF1, g: 0xF6, b: 0xFA, a: 255 },
        sunken: Rgba { r: 0xE4, g: 0xED, b: 0xF4, a: 255 },
        raised: Rgba { r: 0xF7, g: 0xFB, b: 0xFD, a: 255 },
        line: Rgba { r: 0xD7, g: 0xE2, b: 0xEB, a: 255 },
        line_strong: Rgba { r: 0xB0, g: 0xC2, b: 0xD1, a: 255 },
        text: Rgba { r: 0x10, g: 0x20, b: 0x2C, a: 255 },
        text_dim: Rgba { r: 0x48, g: 0x60, b: 0x6F, a: 255 },
        text_faint: Rgba { r: 0x7A, g: 0x8E, b: 0x9C, a: 255 },
        ink: Rgba { r: 0xFF, g: 0xFF, b: 0xFF, a: 255 },
        primary: Rgba { r: 0x2E, g: 0x6C, b: 0x96, a: 255 },
        primary_light: Rgba { r: 0x4A, g: 0x8F, b: 0xBE, a: 255 },
        primary_deep: Rgba { r: 0x1A, g: 0x3F, b: 0x58, a: 255 },
        primary_quiet: Rgba { r: 0xE3, g: 0xEF, b: 0xF7, a: 255 },
        primary_quiet_hi: Rgba { r: 0xD1, g: 0xE5, b: 0xF2, a: 255 },
        prim_grad: (Rgba { r: 0x1A, g: 0x3F, b: 0x58, a: 255 }, Rgba { r: 0x6F, g: 0xB0, b: 0xD8, a: 255 }),
        sec: Rgba { r: 0x0E, g: 0x9B, b: 0xC8, a: 255 },
        sec_light: Rgba { r: 0x4F, g: 0xC7, b: 0xEA, a: 255 },
        sec_deep: Rgba { r: 0x07, g: 0x5E, b: 0x7C, a: 255 },
        sec_grad: (Rgba { r: 0x0E, g: 0x9B, b: 0xC8, a: 255 }, Rgba { r: 0x6F, g: 0xDB, b: 0xF5, a: 255 }),
        danger: Rgba { r: 0xC0, g: 0x3D, b: 0x55, a: 255 },
        danger_light: Rgba { r: 0xDD, g: 0x64, b: 0x79, a: 255 },
        warn: Rgba { r: 0xA8, g: 0x86, b: 0x14, a: 255 },
        ok: Rgba { r: 0x1E, g: 0x8A, b: 0x6E, a: 255 },
        groups: [
            Rgba { r: 0x2E, g: 0x6C, b: 0x96, a: 255 },
            Rgba { r: 0x0E, g: 0x9B, b: 0xC8, a: 255 },
            Rgba { r: 0x4C, g: 0x60, b: 0xA8, a: 255 },
            Rgba { r: 0x1E, g: 0x8A, b: 0x6E, a: 255 },
            Rgba { r: 0xC0, g: 0x3D, b: 0x55, a: 255 },
            Rgba { r: 0x76, g: 0x5C, b: 0xB8, a: 255 },
        ],
    }
}

/// Bloodmoon, dark.
pub open spec fn bloodmoon_dark_spec() -> Palette {
    Palette {
        id: ThemeId::Bloodmoon,
        dark: true,
        backdrop: Rgba { r: 0x0A, g: 0x04, b: 0x06, a: 255 },
        glass: Rgba { r: 0x16, g: 0x0A, b: 0x0D, a: 255 },
        glass_hi: Rgba { r: 0x20, g: 0x11, b: 0x15, a: 255 },
        glass_line: Rgba { r: 0x3A, g: 0x20, b: 0x26, a: 255 },
        glass_edge: Rgba { r: 0x6E, g: 0x3A, b: 0x44, a: 255 },
        solid: Rgba { r: 0x12, g: 0x0A, b: 0x0C, a: 255 },
        solid_hi: Rgba { r: 0x1B, g: 0x11, b: 0x14, a: 255 },
        sunken: Rgba { r: 0x0C, g: 0x07, b: 0x09, a: 255 },
        raised: Rgba { r: 0x24, g: 0x14, b: 0x18, a: 255 },
        line: Rgba { r: 0x2E, g: 0x1A, b: 0x1E, a: 255 },
        line_strong: Rgba { r: 0x4A, g: 0x2A, b: 0x31, a: 255 },
        text: Rgba { r: 0xF3, g: 0xE7, b: 0xE9, a: 255 },
        text_dim: Rgba { r: 0xB0, g: 0x98, b: 0x9D, a: 255 },
        text_faint: Rgba { r: 0x7A, g: 0x64, b: 0x69, a: 255 },
        ink: Rgba { r: 0x14, g: 0x04, b: 0x06, a: 255 },
        primary: Rgba { r: 0xC6, g: 0x41, b: 0x4A, a: 255 },
        primary_light: Rgba { r: 0xE4, g: 0x73, b: 0x7B, a: 255 },
        primary_deep: Rgba { r: 0x4A, g: 0x0F, b: 0x16, a: 255 },
        primary_quiet: Rgba { r: 0x20, g: 0x0C, b: 0x10, a: 255 },
        primary_quiet_hi: Rgba { r: 0x2D, g: 0x11, b: 0x16, a: 255 },
        prim_grad: (Rgba { r: 0x4A, g: 0x0F, b: 0x16, a: 255 }, Rgba { r: 0xD9, g: 0x60, b: 0x6A, a: 255 }),
        sec: Rgba { r: 0xE0, g: 0x1F, b: 0x3D, a: 255 },
        sec_light: Rgba { r: 0xFF, g: 0x8A, b: 0x5F, a: 255 },
        sec_deep: Rgba { r: 0x86, g: 0x09, b: 0x1F, a: 255 },
        sec_grad: (Rgba { r: 0xB3, g: 0x12, b: 0x2E, a: 255 }, Rgba { r: 0xFF, g: 0x9A, b: 0x6B, a: 255 }),
        danger: Rgba { r: 0xFF, g: 0x5A, b: 0x5F, a: 255 },
        danger_light: Rgba { r: 0xFF, g: 0x8A, b: 0x8E, a: 255 },
        warn: Rgba { r: 0xF7, g: 0xAE, b: 0x33, a: 255 },
        ok: Rgba { r: 0x76, g: 0xB0, b: 0x86, a: 255 },
        groups: [
            Rgba { r: 0xC6, g: 0x41, b: 0x4A, a: 255 },
            Rgba { r: 0xFF, g: 0x8A, b: 0x5F, a: 255 },
            Rgba { r: 0xB0, g: 0x6A, b: 0x9A, a: 255 },
            Rgba { r: 0x8A, g: 0x6E, b: 0xB8, a: 255 },
            Rgba { r: 0xD9, g: 0xA8, b: 0x5C, a: 255 },
            Rgba { r: 0x76, g: 0xB0, b: 0x86, a: 255 },
        ],
    }
}

fn bloodmoon_dark() -> (p: Palette)
    ensures
        p == bloodmoon_dark_spec(),
{
    Palette {
        id: ThemeId::Bloodmoon,
        dark: true,
        backdrop: Rgba { r: 0x0A, g: 0x04, b: 0x06, a: 255 },
        glass: Rgba { r: 0x16, g: 0x0A, b: 0x0D, a: 255 },
        glass_hi: Rgba { r: 0x20, g: 0x11, b: 0x15, a: 255 },
        glass_line: Rgba { r: 0x3A, g: 0x20, b: 0x26, a: 255 },
        glass_edge: Rgba { r: 0x6E, g: 0x3A, b: 0x44, a: 255 },
        solid: Rgba { r: 0x12, g: 0x0A, b: 0x0C, a: 255 },
        solid_hi: Rgba { r: 0x1B, g: 0x11, b: 0x14, a: 255 },
        sunken: Rgba { r: 0x0C, g: 0x07, b: 0x09, a: 255 },
        raised: Rgba { r: 0x24, g: 0x14, b: 0x18, a: 255 },
        line: Rgba { r: 0x2E, g: 0x1A, b: 0x1E, a: 255 },
        line_strong: Rgba { r: 0x4A, g: 0x2A, b: 0x31, a: 255 },
        text: Rgba { r: 0xF3, g: 0xE7, b: 0xE9, a: 255 },
        text_dim: Rgba { r: 0xB0, g: 0x98, b: 0x9D, a: 255 },
        text_faint: Rgba { r: 0x7A, g: 0x64, b: 0x69, a: 255 },
        ink: Rgba { r: 0x14, g: 0x04, b: 0x06, a: 255 },
        primary: Rgba { r: 0xC6, g: 0x41, b: 0x4A, a: 255 },
        primary_light: Rgba { r: 0xE4, g: 0x73, b: 0x7B, a: 255 },
        primary_deep: Rgba { r: 0x4A, g: 0x0F, b: 0x16, a: 255 },
        primary_quiet: Rgba { r: 0x20, g: 0x0C, b: 0x10, a: 255 },
        primary_quiet_hi: Rgba { r: 0x2D, g: 0x11, b: 0x16, a: 255 },
        prim_grad: (Rgba { r: 0x4A, g: 0x0F, b: 0x16, a: 255 }, Rgba { r: 0xD9, g: 0x60, b: 0x6A, a: 255 }),
        sec: Rgba { r: 0xE0, g: 0x1F, b: 0x3D, a: 255 },
        sec_light: Rgba { r: 0xFF, g: 0x8A, b: 0x5F, a: 255 },
        sec_deep: Rgba { r: 0x86, g: 0x09, b: 0x1F, a: 255 },
        sec_grad: (Rgba { r: 0xB3, g: 0x12, b: 0x2E, a: 255 }, Rgba { r: 0xFF, g: 0x9A, b: 0x6B, a: 255 }),
        danger: Rgba { r: 0xFF, g: 0x5A, b: 0x5F, a: 255 },
        danger_light: Rgba { r: 0xFF, g: 0x8A, b: 0x8E, a: 255 },
        warn: Rgba { r: 0xF7, g: 0xAE, b: 0x33, a: 255 },
        ok: Rgba { r: 0x76, g: 0xB0, b: 0x86, a: 255 },
        groups: [
            Rgba { r: 0xC6, g: 0x41, b: 0x4A, a: 255 },
            Rgba { r: 0xFF, g: 0x8A, b: 0x5F, a: 255 },
            Rgba { r: 0xB0, g: 0x6A, b: 0x9A, a: 255 },
            Rgba { r: 0x8A, g: 0x6E, b: 0xB8, a: 255 },
            Rgba { r: 0xD9, g: 0xA8, b: 0x5C, a: 255 },
            Rgba { r: 0x76, g: 0xB0, b: 0x86, a: 255 },
        ],
    }
}

/// Bloodmoon, light.
pub open spec fn bloodmoon_light_spec() -> Palette {
    Palette {
        id: ThemeId::Bloodmoon,
        dark: false,
        backdrop: Rgba { r: 0xEA, g: 0xDA, b: 0xDC, a: 255 },
        glass: Rgba { r: 0xFF, g: 0xFB, b: 0xFB, a: 255 },
        glass_hi: Rgba { r: 0xFF, g: 0xFF, b: 0xFF, a: 255 },
        glass_line: Rgba { r: 0xE2, g: 0xCC, b: 0xCF, a: 255 },
        glass_edge: Rgba { r: 0xFF, g: 0xFF, b: 0xFF, a: 255 },
        solid: Rgba { r: 0xFF, g: 0xFF, b: 0xFF, a: 255 },
        solid_hi: Rgba { r: 0xF8, g: 0xEF, b: 0xF0, a: 255 },
        sunken: Rgba { r: 0xEF, g: 0xE0, b: 0xE2, a: 255 },
        raised: Rgba { r: 0xFF, g: 0xF6, b: 0xF6, a: 255 },
        line: Rgba { r: 0xE6, g: 0xD2, b: 0xD5, a: 255 },
        line_strong: Rgba { r: 0xC4, g: 0xA4, b: 0xA9, a: 255 },
        text: Rgba { r: 0x26, g: 0x12, b: 0x15, a: 255 },
        text_dim: Rgba { r: 0x5E, g: 0x40, b: 0x46, a: 255 },
        text_faint: Rgba { r: 0x8A, g: 0x6A, b: 0x70, a: 255 },
        ink: Rgba { r: 0xFF, g: 0xFF, b: 0xFF, a: 255 },
        primary: Rgba { r: 0xA8, g: 0x1F, b: 0x2C, a: 255 },
        primary_light: Rgba { r: 0xC6, g: 0x41, b: 0x4A, a: 255 },
        primary_deep: Rgba { r: 0x6E, g: 0x0A, b: 0x14, a: 255 },
        primary_quiet: Rgba { r: 0xFA, g: 0xE7, b: 0xE9, a: 255 },
        primary_quiet_hi: Rgba { r: 0xF3, g: 0xD6, b: 0xD9, a: 255 },
        prim_grad: (Rgba { r: 0x6E, g: 0x0A, b: 0x14, a: 255 }, Rgba { r: 0xC6, g: 0x41, b: 0x4A, a: 255 }),
        sec: Rgba { r: 0xC4, g: 0x12, b: 0x30, a: 255 },
        sec_light: Rgba { r: 0xF0, g: 0x7A, b: 0x4E, a: 255 },
        sec_deep: Rgba { r: 0x7C, g: 0x04, b: 0x18, a: 255 },
        sec_grad: (Rgba { r: 0xC4, g: 0x12, b: 0x30, a: 255 }, Rgba { r: 0xF5, g: 0x8B, b: 0x5C, a: 255 }),
        danger: Rgba { r: 0xB0, g: 0x18, b: 0x24, a: 255 },
        danger_light: Rgba { r: 0xD4, g: 0x44, b: 0x50, a: 255 },
        warn: Rgba { r: 0xA8, g: 0x7A, b: 0x18, a: 255 },
        ok: Rgba { r: 0x30, g: 0x7A, b: 0x4E, a: 255 },
        groups: [
            Rgba { r: 0xA8, g: 0x1F, b: 0x2C, a: 255 },
            Rgba { r: 0xD9, g: 0x63, b: 0x30, a: 255 },
            Rgba { r: 0x94, g: 0x3C, b: 0x77, a: 255 },
            Rgba { r: 0x5A, g: 0x46, b: 0x9E, a: 255 },
            Rgba { r: 0xA8, g: 0x7A, b: 0x18, a: 255 },
            Rgba { r: 0x30, g: 0x7A, b: 0x4E, a: 255 },
        ],
    }
}

fn bloodmoon_light() -> (p: Palette)
    ensures
        p == bloodmoon_light_spec(),
{
    Palette {
        id: ThemeId::Bloodmoon,
        dark: false,
        backdrop: Rgba { r: 0xEA, g: 0xDA, b: 0xDC, a: 255 },
        glass: Rgba { r: 0xFF, g: 0xFB, b: 0xFB, a: 255 },
        glass_hi: Rgba { r: 0xFF, g: 0xFF, b: 0xFF, a: 255 },
        glass_line: Rgba { r: 0xE2, g: 0xCC, b: 0xCF, a: 255 },
        glass_edge: Rgba { r: 0xFF, g: 0xFF, b: 0xFF, a: 255 },
        solid: Rgba { r: 0xFF, g: 0xFF, b: 0xFF, a: 255 },
        solid_hi: Rgba { r: 0xF8, g: 0xEF, b: 0xF0, a: 255 },
        sunken: Rgba { r: 0xEF, g: 0xE0, b: 0xE2, a: 255 },
        raised: Rgba { r: 0xFF, g: 0xF6, b: 0xF6, a: 255 },
        line: Rgba { r: 0xE6, g: 0xD2, b: 0xD5, a: 255 },
        line_strong: Rgba { r: 0xC4, g: 0xA4, b: 0xA9, a: 255 },
        text: Rgba { r: 0x26, g: 0x12, b: 0x15, a: 255 },
        text_dim: Rgba { r: 0x5E, g: 0x40, b: 0x46, a: 255 },
        text_faint: Rgba { r: 0x8A, g: 0x6A, b: 0x70, a: 255 },
        ink: Rgba { r: 0xFF, g: 0xFF, b: 0xFF, a: 255 },
        primary: Rgba { r: 0xA8, g: 0x1F, b: 0x2C, a: 255 },
        primary_light: Rgba { r: 0xC6, g: 0x41, b: 0x4A, a: 255 },
        primary_deep: Rgba { r: 0x6E, g: 0x0A, b: 0x14, a: 255 },
        primary_quiet: Rgba { r: 0xFA, g: 0xE7, b: 0xE9, a: 255 },
        primary_quiet_hi: Rgba { r: 0xF3, g: 0xD6, b: 0xD9, a: 255 },
        prim_grad: (Rgba { r: 0x6E, g: 0x0A, b: 0x14, a: 255 }, Rgba { r: 0xC6, g: 0x41, b: 0x4A, a: 255 }),
        sec: Rgba { r: 0xC4, g: 0x12, b: 0x30, a: 255 },
        sec_light: Rgba { r: 0xF0, g: 0x7A, b: 0x4E, a: 255 },
        sec_deep: Rgba { r: 0x7C, g: 0x04, b: 0x18, a: 255 },
        sec_grad: (Rgba { r: 0xC4, g: 0x12, b: 0x30, a: 255 }, Rgba { r: 0xF5, g: 0x8B, b: 0x5C, a: 255 }),
        danger: Rgba { r: 0xB0, g: 0x18, b: 0x24, a: 255 },
        danger_light: Rgba { r: 0xD4, g: 0x44, b: 0x50, a: 255 },
        warn: Rgba { r: 0xA8, g: 0x7A, b: 0x18, a: 255 },
        ok: Rgba { r: 0x30, g: 0x7A, b: 0x4E, a: 255 },
        groups: [
            Rgba { r: 0xA8, g: 0x1F, b: 0x2C, a: 255 },
            Rgba { r: 0xD9, g: 0x63, b: 0x30, a: 255 },
            Rgba { r: 0x94, g: 0x3C, b: 0x77, a: 255 },
            Rgba { r: 0x5A, g: 0x46, b: 0x9E, a: 255 },
            Rgba { r: 0xA8, g: 0x7A, b: 0x18, a: 255 },
            Rgba { r: 0x30, g: 0x7A, b: 0x4E, a: 255 },
        ],
    }
}

/// Void, dark.
pub open spec fn void_dark_spec() -> Palette {
    Palette {
        id: ThemeId::Void,
        dark: true,
        backdrop: Rgba { r: 0x06, g: 0x04, b: 0x0B, a: 255 },
        glass: Rgba { r: 0x12, g: 0x0D, b: 0x1C, a: 255 },
        glass_hi: Rgba { r: 0x1A, g: 0x13, b: 0x27, a: 255 },
        glass_line: Rgba { r: 0x30, g: 0x24, b: 0x46, a: 255 },
        glass_edge: Rgba { r: 0x5C, g: 0x46, b: 0x84, a: 255 },
        solid: Rgba { r: 0x0F, g: 0x0A, b: 0x18, a: 255 },
        solid_hi: Rgba { r: 0x16, g: 0x10, b: 0x22, a: 255 },
        sunken: Rgba { r: 0x0A, g: 0x07, b: 0x13, a: 255 },
        raised: Rgba { r: 0x1E, g: 0x16, b: 0x30, a: 255 },
        line: Rgba { r: 0x28, g: 0x1E, b: 0x3A, a: 255 },
        line_strong: Rgba { r: 0x3F, g: 0x2F, b: 0x5A, a: 255 },
        text: Rgba { r: 0xEC, g: 0xE7, b: 0xF5, a: 255 },
        text_dim: Rgba { r: 0xA9, g: 0x9C, b: 0xC0, a: 255 },
        text_faint: Rgba { r: 0x74, g: 0x68, b: 0x89, a: 255 },
        ink: Rgba { r: 0x0B, g: 0x05, b: 0x18, a: 255 },
        primary: Rgba { r: 0x9B, g: 0x6B, b: 0xE0, a: 255 },
        primary_light: Rgba { r: 0xC7, g: 0xA6, b: 0xFF, a: 255 },
        primary_deep: Rgba { r: 0x2E, g: 0x1A, b: 0x4D, a: 255 },
        primary_quiet: Rgba { r: 0x18, g: 0x10, b: 0x2A, a: 255 },
        primary_quiet_hi: Rgba { r: 0x22, g: 0x17, b: 0x3B, a: 255 },
        prim_grad: (Rgba { r: 0x2E, g: 0x1A, b: 0x4D, a: 255 }, Rgba { r: 0xC7, g: 0xA6, b: 0xFF, a: 255 }),
        sec: Rgba { r: 0x7C, g: 0x3A, b: 0xED, a: 255 },
        sec_light: Rgba { r: 0xE8, g: 0x79, b: 0xF9, a: 255 },
        sec_deep: Rgba { r: 0x4B, g: 0x1E, b: 0x96, a: 255 },
        sec_grad: (Rgba { r: 0x7C, g: 0x3A, b: 0xED, a: 255 }, Rgba { r: 0xEC, g: 0x8F, b: 0xFB, a: 255 }),
        danger: Rgba { r: 0xE5, g: 0x48, b: 0x4D, a: 255 },
        danger_light: Rgba { r: 0xF0, g: 0x7A, b: 0x7E, a: 255 },
        warn: Rgba { r: 0xF7, g: 0xC0, b: 0x3B, a: 255 },
        ok: Rgba { r: 0x62, g: 0xC9, b: 0xA8, a: 255 },
        groups: [
            Rgba { r: 0x9B, g: 0x6B, b: 0xE0, a: 255 },
            Rgba { r: 0xE8, g: 0x79, b: 0xF9, a: 255 },
            Rgba { r: 0x6B, g: 0x8A, b: 0xE0, a: 255 },
            Rgba { r: 0x62, g: 0xC9, b: 0xA8, a: 255 },
            Rgba { r: 0xE5, g: 0x48, b: 0x4D, a: 255 },
            Rgba { r: 0xE0, g: 0xB8, b: 0x5C, a: 255 },
        ],
    }
}

fn void_dark() -> (p: Palette)
    ensures
        p == void_dark_spec(),
{
    Palette {
        id: ThemeId::Void,
        dark: true,
        backdrop: Rgba { r: 0x06, g: 0x04, b: 0x0B, a: 255 },
        glass: Rgba { r: 0x12, g: 0x0D, b: 0x1C, a: 255 },
        glass_hi: Rgba { r: 0x1A, g: 0x13, b: 0x27, a: 255 },
        glass_line: Rgba { r: 0x30, g: 0x24, b: 0x46, a: 255 },
        glass_edge: Rgba { r: 0x5C, g: 0x46, b: 0x84, a: 255 },
        solid: Rgba { r: 0x0F, g: 0x0A, b: 0x18, a: 255 },
        solid_hi: Rgba { r: 0x16, g: 0x10, b: 0x22, a: 255 },
        sunken: Rgba { r: 0x0A, g: 0x07, b: 0x13, a: 255 },
        raised: Rgba { r: 0x1E, g: 0x16, b: 0x30, a: 255 },
        line: Rgba { r: 0x28, g: 0x1E, b: 0x3A, a: 255 },
        line_strong: Rgba { r: 0x3F, g: 0x2F, b: 0x5A, a: 255 },
        text: Rgba { r: 0xEC, g: 0xE7, b: 0xF5, a: 255 },
        text_dim: Rgba { r: 0xA9, g: 0x9C, b: 0xC0, a: 255 },
        text_faint: Rgba { r: 0x74, g: 0x68, b: 0x89, a: 255 },
        ink: Rgba { r: 0x0B, g: 0x05, b: 0x18, a: 255 },
        primary: Rgba { r: 0x9B, g: 0x6B, b: 0xE0, a: 255 },
        primary_light: Rgba { r: 0xC7, g: 0xA6, b: 0xFF, a: 255 },
        primary_deep: Rgba { r: 0x2E, g: 0x1A, b: 0x4D, a: 255 },
        primary_quiet: Rgba { r: 0x18, g: 0x10, b: 0x2A, a: 255 },
        primary_quiet_hi: Rgba { r: 0x22, g: 0x17, b: 0x3B, a: 255 },
        prim_grad: (Rgba { r: 0x2E, g: 0x1A, b: 0x4D, a: 255 }, Rgba { r: 0xC7, g: 0xA6, b: 0xFF, a: 255 }),
        sec: Rgba { r: 0x7C, g: 0x3A, b: 0xED, a: 255 },
        sec_light: Rgba { r: 0xE8, g: 0x79, b: 0xF9, a: 255 },
        sec_deep: Rgba { r: 0x4B, g: 0x1E, b: 0x96, a: 255 },
        sec_grad: (Rgba { r: 0x7C, g: 0x3A, b: 0xED, a: 255 }, Rgba { r: 0xEC, g: 0x8F, b: 0xFB, a: 255 }),
        danger: Rgba { r: 0xE5, g: 0x48, b: 0x4D, a: 255 },
        danger_light: Rgba { r: 0xF0, g: 0x7A, b: 0x7E, a: 255 },
        warn: Rgba { r: 0xF7, g: 0xC0, b: 0x3B, a: 255 },
        ok: Rgba { r: 0x62, g: 0xC9, b: 0xA8, a: 255 },
        groups: [
            Rgba { r: 0x9B, g: 0x6B, b: 0xE0, a: 255 },
            Rgba { r: 0xE8, g: 0x79, b: 0xF9, a: 255 },
            Rgba { r: 0x6B, g: 0x8A, b: 0xE0, a: 255 },
            Rgba { r: 0x62, g: 0xC9, b: 0xA8, a: 255 },
            Rgba { r: 0xE5, g: 0x48, b: 0x4D, a: 255 },
            Rgba { r: 0xE0, g: 0xB8, b: 0x5C, a: 255 },
        ],
    }
}

/// Void, light.
pub open spec fn void_light_spec() -> Palette {
    Palette {
        id: ThemeId::Void,
        dark: false,
        backdrop: Rgba { r: 0xE2, g: 0xDC, b: 0xEF, a: 255 },
        glass: Rgba { r: 0xFC, g: 0xFA, b: 0xFF, a: 255 },
        glass_hi: Rgba { r: 0xFF, g: 0xFF, b: 0xFF, a: 255 },
        glass_line: Rgba { r: 0xDA, g: 0xD0, b: 0xEC, a: 255 },
        glass_edge: Rgba { r: 0xFF, g: 0xFF, b: 0xFF, a: 255 },
        solid: Rgba { r: 0xFF, g: 0xFF, b: 0xFF, a: 255 },
        solid_hi: Rgba { r: 0xF5, g: 0xF1, b: 0xFB, a: 255 },
        sunken: Rgba { r: 0xE9, g: 0xE3, b: 0xF3, a: 255 },
        raised: Rgba { r: 0xFA, g: 0xF7, b: 0xFE, a: 255 },
        line: Rgba { r: 0xE0, g: 0xD8, b: 0xEE, a: 255 },
        line_strong: Rgba { r: 0xBC, g: 0xAE, b: 0xD6, a: 255 },
        text: Rgba { r: 0x1A, g: 0x12, b: 0x26, a: 255 },
        text_dim: Rgba { r: 0x4E, g: 0x41, b: 0x66, a: 255 },
        text_faint: Rgba { r: 0x7C, g: 0x6E, b: 0x96, a: 255 },
        ink: Rgba { r: 0xFF, g: 0xFF, b: 0xFF, a: 255 },
        primary: Rgba { r: 0x6D, g: 0x3B, b: 0xC4, a: 255 },
        primary_light: Rgba { r: 0x8B, g: 0x5C, b: 0xE0, a: 255 },
        primary_deep: Rgba { r: 0x3F, g: 0x1F, b: 0x7A, a: 255 },
        primary_quiet: Rgba { r: 0xEE, g: 0xE7, b: 0xFA, a: 255 },
        primary_quiet_hi: Rgba { r: 0xE1, g: 0xD6, b: 0xF6, a: 255 },
        prim_grad: (Rgba { r: 0x3F, g: 0x1F, b: 0x7A, a: 255 }, Rgba { r: 0x8B, g: 0x5C, b: 0xE0, a: 255 }),
        sec: Rgba { r: 0x7C, g: 0x3A, b: 0xED, a: 255 },
        sec_light: Rgba { r: 0xC0, g: 0x5B, b: 0xE0, a: 255 },
        sec_deep: Rgba { r: 0x4B, g: 0x1E, b: 0x96, a: 255 },
        sec_grad: (Rgba { r: 0x7C, g: 0x3A, b: 0xED, a: 255 }, Rgba { r: 0xD0, g: 0x6B, b: 0xE8, a: 255 }),
        danger: Rgba { r: 0xC0, g: 0x2E, b: 0x3A, a: 255 },
        danger_light: Rgba { r: 0xDC, g: 0x56, b: 0x60, a: 255 },
        warn: Rgba { r: 0xA8, g: 0x7C, b: 0x14, a: 255 },
        ok: Rgba { r: 0x1E, g: 0x8A, b: 0x6E, a: 255 },
        groups: [
            Rgba { r: 0x6D, g: 0x3B, b: 0xC4, a: 255 },
            Rgba { r: 0xB0, g: 0x3C, b: 0xC4, a: 255 },
            Rgba { r: 0x3C, g: 0x5C, b: 0xC4, a: 255 },
            Rgba { r: 0x1E, g: 0x8A, b: 0x6E, a: 255 },
            Rgba { r: 0xC0, g: 0x2E, b: 0x3A, a: 255 },
            Rgba { r: 0xA8, g: 0x7C, b: 0x14, a: 255 },
        ],
    }
}

fn void_light() -> (p: Palette)
    ensures
        p == void_light_spec(),
{
    Palette {
        id: ThemeId::Void,
        dark: false,
        backdrop: Rgba { r: 0xE2, g: 0xDC, b: 0xEF, a: 255 },
        glass: Rgba { r: 0xFC, g: 0xFA, b: 0xFF, a: 255 },
        glass_hi: Rgba { r: 0xFF, g: 0xFF, b: 0xFF, a: 255 },
        glass_line: Rgba { r: 0xDA, g: 0xD0, b: 0xEC, a: 255 },
        glass_edge: Rgba { r: 0xFF, g: 0xFF, b: 0xFF, a: 255 },
        solid: Rgba { r: 0xFF, g: 0xFF, b: 0xFF, a: 255 },
        solid_hi: Rgba { r: 0xF5, g: 0xF1, b: 0xFB, a: 255 },
        sunken: Rgba { r: 0xE9, g: 0xE3, b: 0xF3, a: 255 },
        raised: Rgba { r: 0xFA, g: 0xF7, b: 0xFE, a: 255 },
        line: Rgba { r: 0xE0, g: 0xD8, b: 0xEE, a: 255 },
        line_strong: Rgba { r: 0xBC, g: 0xAE, b: 0xD6, a: 255 },
        text: Rgba { r: 0x1A, g: 0x12, b: 0x26, a: 255 },
        text_dim: Rgba { r: 0x4E, g: 0x41, b: 0x66, a: 255 },
        text_faint: Rgba { r: 0x7C, g: 0x6E, b: 0x96, a: 255 },
        ink: Rgba { r: 0xFF, g: 0xFF, b: 0xFF, a: 255 },
        primary: Rgba { r: 0x6D, g: 0x3B, b: 0xC4, a: 255 },
        primary_light: Rgba { r: 0x8B, g: 0x5C, b: 0xE0, a: 255 },
        primary_deep: Rgba { r: 0x3F, g: 0x1F, b: 0x7A, a: 255 },
        primary_quiet: Rgba { r: 0xEE, g: 0xE7, b: 0xFA, a: 255 },
        primary_quiet_hi: Rgba { r: 0xE1, g: 0xD6, b: 0xF6, a: 255 },
        prim_grad: (Rgba { r: 0x3F, g: 0x1F, b: 0x7A, a: 255 }, Rgba { r: 0x8B, g: 0x5C, b: 0xE0, a: 255 }),
        sec: Rgba { r: 0x7C, g: 0x3A, b: 0xED, a: 255 },
        sec_light: Rgba { r: 0xC0, g: 0x5B, b: 0xE0, a: 255 },
        sec_deep: Rgba { r: 0x4B, g: 0x1E, b: 0x96, a: 255 },
        sec_grad: (Rgba { r: 0x7C, g: 0x3A, b: 0xED, a: 255 }, Rgba { r: 0xD0, g: 0x6B, b: 0xE8, a: 255 }),
        danger: Rgba { r: 0xC0, g: 0x2E, b: 0x3A, a: 255 },
        danger_light: Rgba { r: 0xDC, g: 0x56, b: 0x60, a: 255 },
        warn: Rgba { r: 0xA8, g: 0x7C, b: 0x14, a: 255 },
        ok: Rgba { r: 0x1E, g: 0x8A, b: 0x6E, a: 255 },
        groups: [
            Rgba { r: 0x6D, g: 0x3B, b: 0xC4, a: 255 },
            Rgba { r: 0xB0, g: 0x3C, b: 0xC4, a: 255 },
            Rgba { r: 0x3C, g: 0x5C, b: 0xC4, a: 255 },
            Rgba { r: 0x1E, g: 0x8A, b: 0x6E, a: 255 },
            Rgba { r: 0xC0, g: 0x2E, b: 0x3A, a: 255 },
            Rgba { r: 0xA8, g: 0x7C, b: 0x14, a: 255 },
        ],
    }
}

/// JetBrains, dark.
pub open spec fn jetbrains_dark_spec() -> Palette {
    Palette {
        id: ThemeId::JetBrains,
        dark: true,
        backdrop: Rgba { r: 0x0D, g: 0x0C, b: 0x10, a: 255 },
        glass: Rgba { r: 0x17, g: 0x16, b: 0x1A, a: 255 },
        glass_hi: Rgba { r: 0x20, g: 0x1E, b: 0x25, a: 255 },
        glass_line: Rgba { r: 0x33, g: 0x2C, b: 0x3C, a: 255 },
        glass_edge: Rgba { r: 0x62, g: 0x4C, b: 0x74, a: 255 },
        solid: Rgba { r: 0x15, g: 0x14, b: 0x18, a: 255 },
        solid_hi: Rgba { r: 0x1D, g: 0x1B, b: 0x21, a: 255 },
        sunken: Rgba { r: 0x0F, g: 0x0E, b: 0x12, a: 255 },
        raised: Rgba { r: 0x24, g: 0x21, b: 0x2A, a: 255 },
        line: Rgba { r: 0x2A, g: 0x26, b: 0x30, a: 255 },
        line_strong: Rgba { r: 0x43, g: 0x3A, b: 0x4D, a: 255 },
        text: Rgba { r: 0xEE, g: 0xEC, b: 0xF1, a: 255 },
        text_dim: Rgba { r: 0xA9, g: 0xA3, b: 0xB3, a: 255 },
        text_faint: Rgba { r: 0x71, g: 0x6B, b: 0x7B, a: 255 },
        ink: Rgba { r: 0xFF, g: 0xFF, b: 0xFF, a: 255 },
        primary: Rgba { r: 0xB0, g: 0x52, b: 0xC4, a: 255 },
        primary_light: Rgba { r: 0xD4, g: 0x9A, b: 0xE0, a: 255 },
        primary_deep: Rgba { r: 0x4E, g: 0x12, b: 0x78, a: 255 },
        primary_quiet: Rgba { r: 0x1D, g: 0x10, b: 0x25, a: 255 },
        primary_quiet_hi: Rgba { r: 0x2A, g: 0x15, b: 0x37, a: 255 },
        prim_grad: (Rgba { r: 0x45, g: 0x26, b: 0x8E, a: 255 }, Rgba { r: 0xA2, g: 0x3E, b: 0xB2, a: 255 }),
        sec: Rgba { r: 0xE8, g: 0x92, b: 0x4E, a: 255 },
        sec_light: Rgba { r: 0xF0, g: 0xBE, b: 0x62, a: 255 },
        sec_deep: Rgba { r: 0xA8, g: 0x2E, b: 0x6A, a: 255 },
        sec_grad: (Rgba { r: 0xC8, g: 0x4C, b: 0x8E, a: 255 }, Rgba { r: 0xF0, g: 0xB4, b: 0x55, a: 255 }),
        danger: Rgba { r: 0xFF, g: 0x4F, b: 0x5E, a: 255 },
        danger_light: Rgba { r: 0xFF, g: 0x82, b: 0x8B, a: 255 },
        warn: Rgba { r: 0xFD, g: 0xB3, b: 0x2A, a: 255 },
        ok: Rgba { r: 0x3D, g: 0xD6, b: 0x95, a: 255 },
        groups: [
            Rgba { r: 0xD1, g: 0x4B, b: 0xE0, a: 255 },
            Rgba { r: 0xFD, g: 0xB3, b: 0x2A, a: 255 },
            Rgba { r: 0x7E, g: 0x6B, b: 0xFF, a: 255 },
            Rgba { r: 0xF0, g: 0x5C, b: 0xA8, a: 255 },
            Rgba { r: 0x3D, g: 0xC5, b: 0xE0, a: 255 },
            Rgba { r: 0x3D, g: 0xD6, b: 0x95, a: 255 },
        ],
    }
}

fn jetbrains_dark() -> (p: Palette)
    ensures
        p == jetbrains_dark_spec(),
{
    Palette {
        id: ThemeId::JetBrains,
        dark: true,
        backdrop: Rgba { r: 0x0D, g: 0x0C, b: 0x10, a: 255 },
        glass: Rgba { r: 0x17, g: 0x16, b: 0x1A, a: 255 },
        glass_hi: Rgba { r: 0x20, g: 0x1E, b: 0x25, a: 255 },
        glass_line: Rgba { r: 0x33, g: 0x2C, b: 0x3C, a: 255 },
        glass_edge: Rgba { r: 0x62, g: 0x4C, b: 0x74, a: 255 },
        solid: Rgba { r: 0x15, g: 0x14, b: 0x18, a: 255 },
        solid_hi: Rgba { r: 0x1D, g: 0x1B, b: 0x21, a: 255 },
        sunken: Rgba { r: 0x0F, g: 0x0E, b: 0x12, a: 255 },
        raised: Rgba { r: 0x24, g: 0x21, b: 0x2A, a: 255 },
        line: Rgba { r: 0x2A, g: 0x26, b: 0x30, a: 255 },
        line_strong: Rgba { r: 0x43, g: 0x3A, b: 0x4D, a: 255 },
        text: Rgba { r: 0xEE, g: 0xEC, b: 0xF1, a: 255 },
        text_dim: Rgba { r: 0xA9, g: 0xA3, b: 0xB3, a: 255 },
        text_faint: Rgba { r: 0x71, g: 0x6B, b: 0x7B, a: 255 },
        ink: Rgba { r: 0xFF, g: 0xFF, b: 0xFF, a: 255 },
        primary: Rgba { r: 0xB0, g: 0x52, b: 0xC4, a: 255 },
        primary_light: Rgba { r: 0xD4, g: 0x9A, b: 0xE0, a: 255 },
        primary_deep: Rgba { r: 0x4E, g: 0x12, b: 0x78, a: 255 },
        primary_quiet: Rgba { r: 0x1D, g: 0x10, b: 0x25, a: 255 },
        primary_quiet_hi: Rgba { r: 0x2A, g: 0x15, b: 0x37, a: 255 },
        prim_grad: (Rgba { r: 0x45, g: 0x26, b: 0x8E, a: 255 }, Rgba { r: 0xA2, g: 0x3E, b: 0xB2, a: 255 }),
        sec: Rgba { r: 0xE8, g: 0x92, b: 0x4E, a: 255 },
        sec_light: Rgba { r: 0xF0, g: 0xBE, b: 0x62, a: 255 },
        sec_deep: Rgba { r: 0xA8, g: 0x2E, b: 0x6A, a: 255 },
        sec_grad: (Rgba { r: 0xC8, g: 0x4C, b: 0x8E, a: 255 }, Rgba { r: 0xF0, g: 0xB4, b: 0x55, a: 255 }),
        danger: Rgba { r: 0xFF, g: 0x4F, b: 0x5E, a: 255 },
        danger_light: Rgba { r: 0xFF, g: 0x82, b: 0x8B, a: 255 },
        warn: Rgba { r: 0xFD, g: 0xB3, b: 0x2A, a: 255 },
        ok: Rgba { r: 0x3D, g: 0xD6, b: 0x95, a: 255 },
        groups: [
            Rgba { r: 0xD1, g: 0x4B, b: 0xE0, a: 255 },
            Rgba { r: 0xFD, g: 0xB3, b: 0x2A, a: 255 },
            Rgba { r: 0x7E, g: 0x6B, b: 0xFF, a: 255 },
            Rgba { r: 0xF0, g: 0x5C, b: 0xA8, a: 255 },
            Rgba { r: 0x3D, g: 0xC5, b: 0xE0, a: 255 },
            Rgba { r: 0x3D, g: 0xD6, b: 0x95, a: 255 },
        ],
    }
}

/// JetBrains, light.
pub open spec fn jetbrains_light_spec() -> Palette {
    Palette {
        id: ThemeId::JetBrains,
        dark: false,
        backdrop: Rgba { r: 0xE4, g: 0xE1, b: 0xEA, a: 255 },
        glass: Rgba { r: 0xFC, g: 0xFB, b: 0xFE, a: 255 },
        glass_hi: Rgba { r: 0xFF, g: 0xFF, b: 0xFF, a: 255 },
        glass_line: Rgba { r: 0xDA, g: 0xD3, b: 0xE4, a: 255 },
        glass_edge: Rgba { r: 0xFF, g: 0xFF, b: 0xFF, a: 255 },
        solid: Rgba { r: 0xFF, g: 0xFF, b: 0xFF, a: 255 },
        solid_hi: Rgba { r: 0xF6, g: 0xF3, b: 0xF9, a: 255 },
        sunken: Rgba { r: 0xEB, g: 0xE7, b: 0xF1, a: 255 },
        raised: Rgba { r: 0xFA, g: 0xF8, b: 0xFD, a: 255 },
        line: Rgba { r: 0xE2, g: 0xDC, b: 0xEA, a: 255 },
        line_strong: Rgba { r: 0xBF, g: 0xB4, b: 0xCD, a: 255 },
        text: Rgba { r: 0x17, g: 0x13, b: 0x1F, a: 255 },
        text_dim: Rgba { r: 0x4C, g: 0x44, b: 0x58, a: 255 },
        text_faint: Rgba { r: 0x7D, g: 0x75, b: 0x89, a: 255 },
        ink: Rgba { r: 0xFF, g: 0xFF, b: 0xFF, a: 255 },
        primary: Rgba { r: 0x9A, g: 0x10, b: 0xA8, a: 255 },
        primary_light: Rgba { r: 0xB6, g: 0x3A, b: 0xC6, a: 255 },
        primary_deep: Rgba { r: 0x4A, g: 0x0A, b: 0x6E, a: 255 },
        primary_quiet: Rgba { r: 0xF6, g: 0xE7, b: 0xF8, a: 255 },
        primary_quiet_hi: Rgba { r: 0xEE, g: 0xD5, b: 0xF2, a: 255 },
        prim_grad: (Rgba { r: 0x4A, g: 0x2E, b: 0x96, a: 255 }, Rgba { r: 0x96, g: 0x34, b: 0xA6, a: 255 }),
        sec: Rgba { r: 0xE0, g: 0x6E, b: 0x10, a: 255 },
        sec_light: Rgba { r: 0xF2, g: 0x98, b: 0x1C, a: 255 },
        sec_deep: Rgba { r: 0x9A, g: 0x22, b: 0x5C, a: 255 },
        sec_grad: (Rgba { r: 0xB8, g: 0x3A, b: 0x7C, a: 255 }, Rgba { r: 0xE0, g: 0x96, b: 0x2E, a: 255 }),
        danger: Rgba { r: 0xC4, g: 0x28, b: 0x3A, a: 255 },
        danger_light: Rgba { r: 0xE0, g: 0x50, b: 0x5E, a: 255 },
        warn: Rgba { r: 0xB0, g: 0x7A, b: 0x0E, a: 255 },
        ok: Rgba { r: 0x17, g: 0x8A, b: 0x5E, a: 255 },
        groups: [
            Rgba { r: 0x9A, g: 0x10, b: 0xA8, a: 255 },
            Rgba { r: 0xC2, g: 0x7A, b: 0x0A, a: 255 },
            Rgba { r: 0x5A, g: 0x2B, b: 0xD0, a: 255 },
            Rgba { r: 0xC0, g: 0x28, b: 0x7A, a: 255 },
            Rgba { r: 0x1E, g: 0x8F, b: 0xA8, a: 255 },
            Rgba { r: 0x17, g: 0x8A, b: 0x5E, a: 255 },
        ],
    }
}

fn jetbrains_light() -> (p: Palette)
    ensures
        p == jetbrains_light_spec(),
{
    Palette {
        id: ThemeId::JetBrains,
        dark: false,
        backdrop: Rgba { r: 0xE4, g: 0xE1, b: 0xEA, a: 255 },
        glass: Rgba { r: 0xFC, g: 0xFB, b: 0xFE, a: 255 },
        glass_hi: Rgba { r: 0xFF, g: 0xFF, b: 0xFF, a: 255 },
        glass_line: Rgba { r: 0xDA, g: 0xD3, b: 0xE4, a: 255 },
        glass_edge: Rgba { r: 0xFF, g: 0xFF, b: 0xFF, a: 255 },
        solid: Rgba { r: 0xFF, g: 0xFF, b: 0xFF, a: 255 },
        solid_hi: Rgba { r: 0xF6, g: 0xF3, b: 0xF9, a: 255 },
        sunken: Rgba { r: 0xEB, g: 0xE7, b: 0xF1, a: 255 },
        raised: Rgba { r: 0xFA, g: 0xF8, b: 0xFD, a: 255 },
        line: Rgba { r: 0xE2, g: 0xDC, b: 0xEA, a: 255 },
        line_strong: Rgba { r: 0xBF, g: 0xB4, b: 0xCD, a: 255 },
        text: Rgba { r: 0x17, g: 0x13, b: 0x1F, a: 255 },
        text_dim: Rgba { r: 0x4C, g: 0x44, b: 0x58, a: 255 },
        text_faint: Rgba { r: 0x7D, g: 0x75, b: 0x89, a: 255 },
        ink: Rgba { r: 0xFF, g: 0xFF, b: 0xFF, a: 255 },
        primary: Rgba { r: 0x9A, g: 0x10, b: 0xA8, a: 255 },
        primary_light: Rgba { r: 0xB6, g: 0x3A, b: 0xC6, a: 255 },
        primary_deep: Rgba { r: 0x4A, g: 0x0A, b: 0x6E, a: 255 },
        primary_quiet: Rgba { r: 0xF6, g: 0xE7, b: 0xF8, a: 255 },
        primary_quiet_hi: Rgba { r: 0xEE, g: 0xD5, b: 0xF2, a: 255 },
        prim_grad: (Rgba { r: 0x4A, g: 0x2E, b: 0x96, a: 255 }, Rgba { r: 0x96, g: 0x34, b: 0xA6, a: 255 }),
        sec: Rgba { r: 0xE0, g: 0x6E, b: 0x10, a: 255 },
        sec_light: Rgba { r: 0xF2, g: 0x98, b: 0x1C, a: 255 },
        sec_deep: Rgba { r: 0x9A, g: 0x22, b: 0x5C, a: 255 },
        sec_grad: (Rgba { r: 0xB8, g: 0x3A, b: 0x7C, a: 255 }, Rgba { r: 0xE0, g: 0x96, b: 0x2E, a: 255 }),
        danger: Rgba { r: 0xC4, g: 0x28, b: 0x3A, a: 255 },
        danger_light: Rgba { r: 0xE0, g: 0x50, b: 0x5E, a: 255 },
        warn: Rgba { r: 0xB0, g: 0x7A, b: 0x0E, a: 255 },
        ok: Rgba { r: 0x17, g: 0x8A, b: 0x5E, a: 255 },
        groups: [
            Rgba { r: 0x9A, g: 0x10, b: 0xA8, a: 255 },
            Rgba { r: 0xC2, g: 0x7A, b: 0x0A, a: 255 },
            Rgba { r: 0x5A, g: 0x2B, b: 0xD0, a: 255 },
            Rgba { r: 0xC0, g: 0x28, b: 0x7A, a: 255 },
            Rgba { r: 0x1E, g: 0x8F, b: 0xA8, a: 255 },
            Rgba { r: 0x17, g: 0x8A, b: 0x5E, a: 255 },
        ],
    }
}

/// The colours of each theme in each cast.
pub open spec fn palette_spec(id: ThemeId, dark: bool) -> Palette {
    match (id, dark) {
        (ThemeId::Zen, true) => zen_dark_spec(),
        (ThemeId::Zen, false) => zen_light_spec(),
        (ThemeId::Ember, true) => ember_dark_spec(),
        (ThemeId::Ember, false) => ember_light_spec(),
        (ThemeId::Frostbite, true) => frostbite_dark_spec(),
        (ThemeId::Frostbite, false) => frostbite_light_spec(),
        (ThemeId::Bloodmoon, true) => bloodmoon_dark_spec(),
        (ThemeId::Bloodmoon, false) => bloodmoon_light_spec(),
        (ThemeId::Void, true) => void_dark_spec(),
        (ThemeId::Void, false) => void_light_spec(),
        (ThemeId::JetBrains, true) => jetbrains_dark_spec(),
        (ThemeId::JetBrains, false) => jetbrains_light_spec(),
    }
}

/// Every colour a theme paints with, dark or light.
pub fn palette(id: ThemeId, dark: bool) -> (p: Palette)
    ensures
        p == palette_spec(id, dark),
{
    match (id, dark) {
        (ThemeId::Zen, true) => zen_dark(),
        (ThemeId::Zen, false) => zen_light(),
        (ThemeId::Ember, true) => ember_dark(),
        (ThemeId::Ember, false) => ember_light(),
        (ThemeId::Frostbite, true) => frostbite_dark(),
        (ThemeId::Frostbite, false) => frostbite_light(),
        (ThemeId::Bloodmoon, true) => bloodmoon_dark(),
        (ThemeId::Bloodmoon, false) => bloodmoon_light(),
        (ThemeId::Void, true) => void_dark(),
        (ThemeId::Void, false) => void_light(),
        (ThemeId::JetBrains, true) => jetbrains_dark(),
        (ThemeId::JetBrains, false) => jetbrains_light(),
    }
}

} // verus!
