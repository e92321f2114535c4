use vstd::prelude::*;

use crate::chars::{string_eq, to_lowercase, unicode_lowercase, ascii_lower, is_ascii_text};

verus! {

/// The colour themes of the player.
#[derive(Debug, Clone, Copy, PartialEq, Eq, Structural)]
pub enum ThemeKind {
    Catppuccin,
    Nord,
    Dracula,
    TokyoNight,
    Gruvbox,
    Cyberpunk,
}

/// The name under which a theme is shown.
pub open spec fn theme_title(k: ThemeKind) -> Seq<char> {
    match k {
        ThemeKind::Catppuccin => "Catppuccin Mocha"@,
        ThemeKind::Nord => "Nord"@,
        ThemeKind::Dracula => "Dracula"@,
        ThemeKind::TokyoNight => "Tokyo Night"@,
        ThemeKind::Gruvbox => "Gruvbox Dark"@,
        ThemeKind::Cyberpunk => "Cyberpunk Neon"@,
    }
}

/// The name under which a theme is stored in the configuration.
pub open spec fn theme_key(k: ThemeKind) -> Seq<char> {
    match k {
        ThemeKind::Catppuccin => "catppuccin"@,
        ThemeKind::Nord => "nord"@,
        ThemeKind::Dracula => "dracula"@,
        ThemeKind::TokyoNight => "tokyonight"@,
        ThemeKind::Gruvbox => "gruvbox"@,
        ThemeKind::Cyberpunk => "cyberpunk"@,
    }
}

/// The theme that a lower-cased name selects; any name it does not know selects Catppuccin.
pub open spec fn theme_for_name(lower: Seq<char>) -> ThemeKind {
    if lower == "nord"@ {
        ThemeKind::Nord
    } else if lower == "dracula"@ {
        ThemeKind::Dracula
    } else if lower == "tokyonight"@ || lower == "tokyo night"@ || lower == "tokyo_night"@ {
        ThemeKind::TokyoNight
    } else if lower == "gruvbox"@ {
        ThemeKind::Gruvbox
    } else if lower == "cyberpunk"@ {
        ThemeKind::Cyberpunk
    } else {
        ThemeKind::Catppuccin
    }
}

/// The themes in the order in which they are offered and cycled through.
pub open spec fn theme_order() -> Seq<ThemeKind> {
    seq![
        ThemeKind::Catppuccin,
        ThemeKind::Nord,
        ThemeKind::Dracula,
        ThemeKind::TokyoNight,
        ThemeKind::Gruvbox,
        ThemeKind::Cyberpunk,
    ]
}

/// The theme after `k` in the order of the themes, the first one after the last.
pub open spec fn theme_after(k: ThemeKind) -> ThemeKind {
    match k {
        ThemeKind::Catppuccin => ThemeKind::Nord,
        ThemeKind::Nord => ThemeKind::Dracula,
        ThemeKind::Dracula => ThemeKind::TokyoNight,
        ThemeKind::TokyoNight => ThemeKind::Gruvbox,
        ThemeKind::Gruvbox => ThemeKind::Cyberpunk,
        ThemeKind::Cyberpunk => ThemeKind::Catppuccin,
    }
}

impl ThemeKind {
    /// Every theme, in order.
    pub const ALL: [ThemeKind; 6] = [
        ThemeKind::Catppuccin,
        ThemeKind::Nord,
        ThemeKind::Dracula,
        ThemeKind::TokyoNight,
        ThemeKind::Gruvbox,
        ThemeKind::Cyberpunk,
    ];

    /// The theme that cycling moves to from this one.
    pub fn next(&self) -> (r: ThemeKind)
        ensures
            r == theme_after(*self),
    {
        match self {
            ThemeKind::Catppuccin => ThemeKind::Nord,
            ThemeKind::Nord => ThemeKind::Dracula,
            ThemeKind::Dracula => ThemeKind::TokyoNight,
            ThemeKind::TokyoNight => ThemeKind::Gruvbox,
            ThemeKind::Gruvbox => ThemeKind::Cyberpunk,
            ThemeKind::Cyberpunk => ThemeKind::Catppuccin,
        }
    }

    pub fn name(&self) -> (r: &'static str)
        ensures
            r@ == theme_title(*self),
    {
        match self {
            ThemeKind::Catppuccin => "Catppuccin Mocha",
            ThemeKind::Nord => "Nord",
            ThemeKind::Dracula => "Dracula",
            ThemeKind::TokyoNight => "Tokyo Night",
            ThemeKind::Gruvbox => "Gruvbox Dark",
            ThemeKind::Cyberpunk => "Cyberpunk Neon",
        }
    }

    /// The theme named `s`, whatever its case; unknown names give Catppuccin.
    pub fn from_str(s: &str) -> (k: ThemeKind)
        ensures
            k == theme_for_name(unicode_lowercase(s@)),
            is_ascii_text(s@) ==> k == theme_for_name(ascii_lower(s@)),
    {
        let lower = to_lowercase(s);
        if string_eq(&lower, "nord") {
            ThemeKind::Nord
        } else if string_eq(&lower, "dracula") {
            ThemeKind::Dracula
        } else if string_eq(&lower, "tokyonight") || string_eq(&lower, "tokyo night") || string_eq(
            &lower,
            "tokyo_night",
        ) {
            ThemeKind::TokyoNight
        } else if string_eq(&lower, "gruvbox") {
            ThemeKind::Gruvbox
        } else if string_eq(&lower, "cyberpunk") {
            ThemeKind::Cyberpunk
        } else {
            ThemeKind::Catppuccin
        }
    }

    pub fn to_str(&self) -> (r: &'static str)
        ensures
            r@ == theme_key(*self),
    {
        match self {
            ThemeKind::Catppuccin => "catppuccin",
            ThemeKind::Nord => "nord",
            ThemeKind::Dracula => "dracula",
            ThemeKind::TokyoNight => "tokyonight",
            ThemeKind::Gruvbox => "gruvbox",
            ThemeKind::Cyberpunk => "cyberpunk",
        }
    }
}

/// Reading back the configuration name of a theme gives the same theme: `from_str` undoes
/// `to_str` (these names are ASCII, so the `from_str` clause on ASCII names applies).
pub proof fn law_theme_key_round_trip(k: ThemeKind)
    ensures
        is_ascii_text(theme_key(k)),
        theme_for_name(ascii_lower(theme_key(k))) == k,
{
    reveal_strlit("catppuccin");
    reveal_strlit("nord");
    reveal_strlit("dracula");
    reveal_strlit("tokyonight");
    reveal_strlit("tokyo night");
    reveal_strlit("tokyo_night");
    reveal_strlit("gruvbox");
    reveal_strlit("cyberpunk");
    let key = theme_key(k);
    assert(ascii_lower(key) =~= key);
    match k {
        ThemeKind::Catppuccin => {
            assert(key[0] == 'c' && key[1] == 'a');
            assert(key != "nord"@ && key != "dracula"@ && key != "gruvbox"@);
            assert("tokyonight"@[0] == 't' && "tokyo night"@[0] == 't' && "tokyo_night"@[0] == 't');
            assert("cyberpunk"@.len() == 9);
        },
        ThemeKind::Nord => {},
        ThemeKind::Dracula => {
            assert(key.len() == 7);
        },
        ThemeKind::TokyoNight => {
            assert(key.len() == 10);
        },
        ThemeKind::Gruvbox => {
            assert(key.len() == 7 && key[0] == 'g');
            assert("dracula"@[0] == 'd');
        },
        ThemeKind::Cyberpunk => {
            assert(key.len() == 9);
        },
    }
}

/// `ThemeKind::ALL` lists the six themes in order, each once; cycling moves each theme to the
/// one after it in that list and the last to the first, so six steps come back to the start.
pub proof fn law_theme_cycle(k: ThemeKind)
    ensures
        ThemeKind::ALL@ == theme_order(),
        forall|i: int, j: int| 0 <= i < j < 6 ==> theme_order()[i] != theme_order()[j],
        forall|i: int| 0 <= i < 6 ==> #[trigger] theme_after(theme_order()[i]) == theme_order()[(i + 1) % 6],
        theme_after(theme_after(theme_after(theme_after(theme_after(theme_after(k)))))) == k,
{
    assert(ThemeKind::ALL@ =~= theme_order());
}

/// A 24-bit colour.
#[derive(Debug, Clone, Copy, PartialEq, Eq, Structural)]
pub struct Rgb {
    pub r: u8,
    pub g: u8,
    pub b: u8,
}

/// The colours of a theme.
#[derive(Debug, Clone, Copy, PartialEq, Eq, Structural)]
pub struct ThemePalette {
    pub border_focused: Rgb,
    pub border_unfocused: Rgb,
    pub accent: Rgb,
    pub accent_secondary: Rgb,
    pub bg_highlight: Rgb,
    pub text_primary: Rgb,
    pub text_secondary: Rgb,
    pub text_dim: Rgb,
    pub text_highlight: Rgb,
    pub title: Rgb,
    pub progress_fill: Rgb,
    pub progress_track: Rgb,
    pub visualizer_low: Rgb,
    pub visualizer_mid: Rgb,
    pub visualizer_high: Rgb,
}

/// The palette of each theme.
pub open spec fn palette(kind: ThemeKind) -> ThemePalette {
    match kind {
        ThemeKind::Catppuccin => ThemePalette {
            border_focused: Rgb { r: 203, g: 166, b: 247 },
            border_unfocused: Rgb { r: 88, g: 91, b: 112 },
            accent: Rgb { r: 137, g: 180, b: 250 },
            accent_secondary: Rgb { r: 148, g: 226, b: 213 },
            bg_highlight: Rgb { r: 203, g: 166, b: 247 },
            text_primary: Rgb { r: 205, g: 214, b: 244 },
            text_secondary: Rgb { r: 186, g: 194, b: 222 },
            text_dim: Rgb { r: 108, g: 112, b: 134 },
            text_highlight: Rgb { r: 17, g: 17, b: 27 },
            title: Rgb { r: 245, g: 194, b: 231 },
            progress_fill: Rgb { r: 137, g: 180, b: 250 },
            progress_track: Rgb { r: 49, g: 50, b: 68 },
            visualizer_low: Rgb { r: 148, g: 226, b: 213 },
            visualizer_mid: Rgb { r: 137, g: 180, b: 250 },
            visualizer_high: Rgb { r: 203, g: 166, b: 247 },
        },
        ThemeKind::Nord => ThemePalette {
            border_focused: Rgb { r: 136, g: 192, b: 208 },
            border_unfocused: Rgb { r: 76, g: 86, b: 106 },
            accent: Rgb { r: 129, g: 161, b: 193 },
            accent_secondary: Rgb { r: 143, g: 188, b: 187 },
            bg_highlight: Rgb { r: 136, g: 192, b: 208 },
            text_primary: Rgb { r: 236, g: 239, b: 244 },
            text_secondary: Rgb { r: 229, g: 233, b: 240 },
            text_dim: Rgb { r: 94, g: 129, b: 172 },
            text_highlight: Rgb { r: 46, g: 52, b: 64 },
            title: Rgb { r: 136, g: 192, b: 208 },
            progress_fill: Rgb { r: 129, g: 161, b: 193 },
            progress_track: Rgb { r: 59, g: 66, b: 82 },
            visualizer_low: Rgb { r: 163, g: 190, b: 140 },
            visualizer_mid: Rgb { r: 136, g: 192, b: 208 },
            visualizer_high: Rgb { r: 180, g: 142, b: 173 },
        },
        ThemeKind::Dracula => ThemePalette {
            border_focused: Rgb { r: 255, g: 121, b: 198 },
            border_unfocused: Rgb { r: 98, g: 114, b: 164 },
            accent: Rgb { r: 189, g: 147, b: 249 },
            accent_secondary: Rgb { r: 139, g: 233, b: 253 },
            bg_highlight: Rgb { r: 255, g: 121, b: 198 },
            text_primary: Rgb { r: 248, g: 248, b: 242 },
            text_secondary: Rgb { r: 189, g: 147, b: 249 },
            text_dim: Rgb { r: 98, g: 114, b: 164 },
            text_highlight: Rgb { r: 40, g: 42, b: 54 },
            title: Rgb { r: 241, g: 250, b: 140 },
            progress_fill: Rgb { r: 255, g: 121, b: 198 },
            progress_track: Rgb { r: 68, g: 71, b: 90 },
            visualizer_low: Rgb { r: 80, g: 250, b: 123 },
            visualizer_mid: Rgb { r: 139, g: 233, b: 253 },
            visualizer_high: Rgb { r: 255, g: 121, b: 198 },
        },
        ThemeKind::TokyoNight => ThemePalette {
            border_focused: Rgb { r: 122, g: 162, b: 247 },
            border_unfocused: Rgb { r: 65, g: 72, b: 104 },
            accent: Rgb { r: 187, g: 154, b: 247 },
            accent_secondary: Rgb { r: 125, g: 207, b: 255 },
            bg_highlight: Rgb { r: 122, g: 162, b: 247 },
            text_primary: Rgb { r: 192, g: 202, b: 245 },
            text_secondary: Rgb { r: 169, g: 177, b: 214 },
            text_dim: Rgb { r: 86, g: 95, b: 137 },
            text_highlight: Rgb { r: 26, g: 27, b: 38 },
            title: Rgb { r: 255, g: 158, b: 100 },
            progress_fill: Rgb { r: 187, g: 154, b: 247 },
            progress_track: Rgb { r: 36, g: 40, b: 59 },
            visualizer_low: Rgb { r: 158, g: 206, b: 106 },
            visualizer_mid: Rgb { r: 122, g: 162, b: 247 },
            visualizer_high: Rgb { r: 247, g: 118, b: 142 },
        },
        ThemeKind::Gruvbox => ThemePalette {
            border_focused: Rgb { r: 250, g: 189, b: 47 },
            border_unfocused: Rgb { r: 102, g: 92, b: 84 },
            accent: Rgb { r: 254, g: 128, b: 25 },
            accent_secondary: Rgb { r: 142, g: 192, b: 124 },
            bg_highlight: Rgb { r: 250, g: 189, b: 47 },
            text_primary: Rgb { r: 235, g: 219, b: 178 },
            text_secondary: Rgb { r: 213, g: 196, b: 161 },
            text_dim: Rgb { r: 146, g: 131, b: 116 },
            text_highlight: Rgb { r: 40, g: 40, b: 40 },
            title: Rgb { r: 251, g: 73, b: 52 },
            progress_fill: Rgb { r: 250, g: 189, b: 47 },
            progress_track: Rgb { r: 60, g: 56, b: 54 },
            visualizer_low: Rgb { r: 184, g: 187, b: 38 },
            visualizer_mid: Rgb { r: 250, g: 189, b: 47 },
            visualizer_high: Rgb { r: 254, g: 128, b: 25 },
        },
        ThemeKind::Cyberpunk => ThemePalette {
            border_focused: Rgb { r: 0, g: 255, b: 240 },
            border_unfocused: Rgb { r: 60, g: 0, b: 80 },
            accent: Rgb { r: 255, g: 0, b: 127 },
            accent_secondary: Rgb { r: 255, g: 240, b: 0 },
            bg_highlight: Rgb { r: 0, g: 255, b: 240 },
            text_primary: Rgb { r: 255, g: 255, b: 255 },
            text_secondary: Rgb { r: 0, g: 255, b: 240 },
            text_dim: Rgb { r: 100, g: 100, b: 150 },
            text_highlight: Rgb { r: 20, g: 0, b: 40 },
            title: Rgb { r: 255, g: 240, b: 0 },
            progress_fill: Rgb { r: 255, g: 0, b: 127 },
            progress_track: Rgb { r: 40, g: 0, b: 60 },
            visualizer_low: Rgb { r: 0, g: 255, b: 240 },
            visualizer_mid: Rgb { r: 255, g: 240, b: 0 },
            visualizer_high: Rgb { r: 255, g: 0, b: 127 },
        },
    }
}

impl ThemePalette {
    pub fn for_kind(kind: ThemeKind) -> (p: ThemePalette)
        ensures
            p == palette(kind),
    {
        match kind {
            ThemeKind::Catppuccin => ThemePalette {
                border_focused: Rgb { r: 203, g: 166, b: 247 },
                border_unfocused: Rgb { r: 88, g: 91, b: 112 },
                accent: Rgb { r: 137, g: 180, b: 250 },
                accent_secondary: Rgb { r: 148, g: 226, b: 213 },
                bg_highlight: Rgb { r: 203, g: 166, b: 247 },
                text_primary: Rgb { r: 205, g: 214, b: 244 },
                text_secondary: Rgb { r: 186, g: 194, b: 222 },
                text_dim: Rgb { r: 108, g: 112, b: 134 },
                text_highlight: Rgb { r: 17, g: 17, b: 27 },
                title: Rgb { r: 245, g: 194, b: 231 },
                progress_fill: Rgb { r: 137, g: 180, b: 250 },
                progress_track: Rgb { r: 49, g: 50, b: 68 },
                visualizer_low: Rgb { r: 148, g: 226, b: 213 },
                visualizer_mid: Rgb { r: 137, g: 180, b: 250 },
                visualizer_high: Rgb { r: 203, g: 166, b: 247 },
            },
            ThemeKind::Nord => ThemePalette {
                border_focused: Rgb { r: 136, g: 192, b: 208 },
                border_unfocused: Rgb { r: 76, g: 86, b: 106 },
                accent: Rgb { r: 129, g: 161, b: 193 },
                accent_secondary: Rgb { r: 143, g: 188, b: 187 },
                bg_highlight: Rgb { r: 136, g: 192, b: 208 },
                text_primary: Rgb { r: 236, g: 239, b: 244 },
                text_secondary: Rgb { r: 229, g: 233, b: 240 },
                text_dim: Rgb { r: 94, g: 129, b: 172 },
                text_highlight: Rgb { r: 46, g: 52, b: 64 },
                title: Rgb { r: 136, g: 192, b: 208 },
                progress_fill: Rgb { r: 129, g: 161, b: 193 },
                progress_track: Rgb { r: 59, g: 66, b: 82 },
                visualizer_low: Rgb { r: 163, g: 190, b: 140 },
                visualizer_mid: Rgb { r: 136, g: 192, b: 208 },
                visualizer_high: Rgb { r: 180, g: 142, b: 173 },
            },
            ThemeKind::Dracula => ThemePalette {
                border_focused: Rgb { r: 255, g: 121, b: 198 },
                border_unfocused: Rgb { r: 98, g: 114, b: 164 },
                accent: Rgb { r: 189, g: 147, b: 249 },
                accent_secondary: Rgb { r: 139, g: 233, b: 253 },
                bg_highlight: Rgb { r: 255, g: 121, b: 198 },
                text_primary: Rgb { r: 248, g: 248, b: 242 },
                text_secondary: Rgb { r: 189, g: 147, b: 249 },
                text_dim: Rgb { r: 98, g: 114, b: 164 },
                text_highlight: Rgb { r: 40, g: 42, b: 54 },
                title: Rgb { r: 241, g: 250, b: 140 },
                progress_fill: Rgb { r: 255, g: 121, b: 198 },
                progress_track: Rgb { r: 68, g: 71, b: 90 },
                visualizer_low: Rgb { r: 80, g: 250, b: 123 },
                visualizer_mid: Rgb { r: 139, g: 233, b: 253 },
                visualizer_high: Rgb { r: 255, g: 121, b: 198 },
            },
            ThemeKind::TokyoNight => ThemePalette {
                border_focused: Rgb { r: 122, g: 162, b: 247 },
                border_unfocused: Rgb { r: 65, g: 72, b: 104 },
                accent: Rgb { r: 187, g: 154, b: 247 },
                accent_secondary: Rgb { r: 125, g: 207, b: 255 },
                bg_highlight: Rgb { r: 122, g: 162, b: 247 },
                text_primary: Rgb { r: 192, g: 202, b: 245 },
                text_secondary: Rgb { r: 169, g: 177, b: 214 },
                text_dim: Rgb { r: 86, g: 95, b: 137 },
                text_highlight: Rgb { r: 26, g: 27, b: 38 },
                title: Rgb { r: 255, g: 158, b: 100 },
                progress_fill: Rgb { r: 187, g: 154, b: 247 },
                progress_track: Rgb { r: 36, g: 40, b: 59 },
                visualizer_low: Rgb { r: 158, g: 206, b: 106 },
                visualizer_mid: Rgb { r: 122, g: 162, b: 247 },
                visualizer_high: Rgb { r: 247, g: 118, b: 142 },
            },
            ThemeKind::Gruvbox => ThemePalette {
                border_focused: Rgb { r: 250, g: 189, b: 47 },
                border_unfocused: Rgb { r: 102, g: 92, b: 84 },
                accent: Rgb { r: 254, g: 128, b: 25 },
                accent_secondary: Rgb { r: 142, g: 192, b: 124 },
                bg_highlight: Rgb { r: 250, g: 189, b: 47 },
                text_primary: Rgb { r: 235, g: 219, b: 178 },
                text_secondary: Rgb { r: 213, g: 196, b: 161 },
                text_dim: Rgb { r: 146, g: 131, b: 116 },
                text_highlight: Rgb { r: 40, g: 40, b: 40 },
                title: Rgb { r: 251, g: 73, b: 52 },
                progress_fill: Rgb { r: 250, g: 189, b: 47 },
                progress_track: Rgb { r: 60, g: 56, b: 54 },
                visualizer_low: Rgb { r: 184, g: 187, b: 38 },
                visualizer_mid: Rgb { r: 250, g: 189, b: 47 },
                visualizer_high: Rgb { r: 254, g: 128, b: 25 },
            },
            ThemeKind::Cyberpunk => ThemePalette {
                border_focused: Rgb { r: 0, g: 255, b: 240 },
                border_unfocused: Rgb { r: 60, g: 0, b: 80 },
                accent: Rgb { r: 255, g: 0, b: 127 },
                accent_secondary: Rgb { r: 255, g: 240, b: 0 },
                bg_highlight: Rgb { r: 0, g: 255, b: 240 },
                text_primary: Rgb { r: 255, g: 255, b: 255 },
                text_secondary: Rgb { r: 0, g: 255, b: 240 },
                text_dim: Rgb { r: 100, g: 100, b: 150 },
                text_highlight: Rgb { r: 20, g: 0, b: 40 },
                title: Rgb { r: 255, g: 240, b: 0 },
                progress_fill: Rgb { r: 255, g: 0, b: 127 },
                progress_track: Rgb { r: 40, g: 0, b: 60 },
                visualizer_low: Rgb { r: 0, g: 255, b: 240 },
                visualizer_mid: Rgb { r: 255, g: 240, b: 0 },
                visualizer_high: Rgb { r: 255, g: 0, b: 127 },
            },
        }
    }
}

} // verus!
