//! Omarchy theme integration: the colors of the current theme as GTK
//! `@define-color` definitions that the static stylesheet refers to. Falls
//! back to a built-in Tokyo Night palette where the theme has no color.

use vstd::prelude::*;

use crate::document::{find_text, TomlValue};
use crate::document::text_under;
use crate::document::TomlValueView;
use crate::outside::parse_toml;
use crate::outside::toml_document;
use crate::paths::join_path;
use crate::paths::joined_path;
use crate::text::{chars, strip_prefix};
use crate::text::{begins, finishes, holds, without_prefix};

verus! {

/// What the theme's colors file says, as far as its values are texts.
#[derive(Debug)]
pub struct ThemeColors {
    /// `background`.
    pub background: Option<String>,
    /// `foreground`.
    pub foreground: Option<String>,
    /// `accent`.
    pub accent: Option<String>,
    /// `color1`: danger (ANSI red).
    pub color1: Option<String>,
    /// `color2`: the project workspace currently on screen (ANSI green).
    pub color2: Option<String>,
    /// `color3`: a project with windows that is not on screen (ANSI yellow).
    pub color3: Option<String>,
}

/// The `~/.config/omarchy/current` directory (watched for theme switches).
pub fn omarchy_current_dir(home: Option<&str>) -> (r: Option<String>)
    ensures
        r.deep_view() == (match home {
            Some(home) => Some(joined_path(home@, ".config/omarchy/current"@)),
            None => None,
        }),
{
    match home {
        Some(home) => Some(join_path(home, ".config/omarchy/current")),
        None => None,
    }
}

/// Where the theme's colors are.
pub fn colors_file(home: Option<&str>) -> (r: Option<String>)
    ensures
        r.deep_view() == (match home {
            Some(home) => Some(
                joined_path(
                    joined_path(home@, ".config/omarchy/current"@),
                    "theme/colors.toml"@,
                ),
            ),
            None => None,
        }),
{
    match omarchy_current_dir(home) {
        Some(dir) => Some(join_path(dir.as_str(), "theme/colors.toml")),
        None => None,
    }
}

/// Whether a character is a hexadecimal digit.
pub open spec fn is_hex_digit(c: char) -> bool {
    '0' <= c && c <= '9' || 'a' <= c && c <= 'f' || 'A' <= c && c <= 'F'
}

/// Whether a text is a color: a hash and six or eight hexadecimal digits.
pub open spec fn hex_color(s: Seq<char>) -> bool {
    match without_prefix(s, "#"@) {
        Some(hex) => (hex.len() == 6 || hex.len() == 8) && forall|i: int|
            0 <= i < hex.len() ==> is_hex_digit(#[trigger] hex[i]),
        None => false,
    }
}

/// Whether a text is a color.
pub fn is_hex_color(s: &str) -> (r: bool)
    ensures
        r == hex_color(s@),
{
    let hex = match strip_prefix(s, "#") {
        Some(hex) => hex,
        None => {
            return false;
        },
    };
    let v = chars(hex.as_str());
    if v.len() != 6 && v.len() != 8 {
        return false;
    }
    let mut i: usize = 0;
    while i < v.len()
        invariant
            i <= v.len(),
            v@ == hex@,
            without_prefix(s@, "#"@) == Some(hex@),
            forall|k: int| 0 <= k < i ==> is_hex_digit(#[trigger] v@[k]),
        decreases v.len() - i,
    {
        let c = v[i];
        if !('0' <= c && c <= '9' || 'a' <= c && c <= 'f' || 'A' <= c && c <= 'F') {
            assert(!is_hex_digit(hex@[i as int]));
            return false;
        }
        i = i + 1;
    }
    true
}

/// The color to use: the theme's if it is one, else the fallback.
pub open spec fn chosen(value: Option<Seq<char>>, fallback: Seq<char>) -> Seq<char> {
    match value {
        Some(color) => if hex_color(color) {
            color
        } else {
            fallback
        },
        None => fallback,
    }
}

fn choose_color(value: &Option<String>, fallback: &str) -> (r: String)
    ensures
        r@ == chosen(value.deep_view(), fallback@),
{
    match value {
        Some(color) => if is_hex_color(color.as_str()) {
            color.clone()
        } else {
            fallback.to_owned()
        },
        None => fallback.to_owned(),
    }
}

/// One color definition.
pub open spec fn definition(name: Seq<char>, color: Seq<char>) -> Seq<char> {
    "@define-color "@ + name + " "@ + color + ";\n"@
}

/// The definitions for a theme.
pub open spec fn definitions(colors: ThemeColors) -> Seq<char> {
    definition("panel_bg"@, chosen(colors.background.deep_view(), "#1a1b26"@)) + definition(
        "panel_fg"@,
        chosen(colors.foreground.deep_view(), "#a9b1d6"@),
    ) + definition("panel_accent"@, chosen(colors.accent.deep_view(), "#7aa2f7"@)) + definition(
        "panel_danger"@,
        chosen(colors.color1.deep_view(), "#f7768e"@),
    ) + definition("panel_viewing"@, chosen(colors.color2.deep_view(), "#9ece6a"@)) + definition(
        "panel_open"@,
        chosen(colors.color3.deep_view(), "#e0af68"@),
    )
}

fn define(name: &str, color: &str) -> (r: String)
    ensures
        r@ == definition(name@, color@),
{
    let mut out = "@define-color ".to_owned();
    out.append(name);
    out.append(" ");
    out.append(color);
    out.append(";\n");
    out
}

/// Generate the `@define-color` CSS for a theme.
pub fn color_definitions(colors: &ThemeColors) -> (r: String)
    ensures
        r@ == definitions(*colors),
{
    let mut out = define("panel_bg", choose_color(&colors.background, "#1a1b26").as_str());
    out.append(
        define("panel_fg", choose_color(&colors.foreground, "#a9b1d6").as_str()).as_str(),
    );
    out.append(define("panel_accent", choose_color(&colors.accent, "#7aa2f7").as_str()).as_str());
    out.append(define("panel_danger", choose_color(&colors.color1, "#f7768e").as_str()).as_str());
    out.append(
        define("panel_viewing", choose_color(&colors.color2, "#9ece6a").as_str()).as_str(),
    );
    out.append(define("panel_open", choose_color(&colors.color3, "#e0af68").as_str()).as_str());
    out
}

/// What a parsed colors file says.
pub open spec fn listed_colors(
    entries: Seq<(Seq<char>, TomlValueView)>,
    colors: ThemeColors,
) -> bool {
    &&& colors.background.deep_view() == text_under(entries, "background"@)
    &&& colors.foreground.deep_view() == text_under(entries, "foreground"@)
    &&& colors.accent.deep_view() == text_under(entries, "accent"@)
    &&& colors.color1.deep_view() == text_under(entries, "color1"@)
    &&& colors.color2.deep_view() == text_under(entries, "color2"@)
    &&& colors.color3.deep_view() == text_under(entries, "color3"@)
}

/// The colors that a parsed colors file names.
pub fn colors_in(entries: &Vec<(String, TomlValue)>) -> (r: ThemeColors)
    ensures
        listed_colors(entries.deep_view(), r),
{
    ThemeColors {
        background: find_text(entries, "background"),
        foreground: find_text(entries, "foreground"),
        accent: find_text(entries, "accent"),
        color1: find_text(entries, "color1"),
        color2: find_text(entries, "color2"),
        color3: find_text(entries, "color3"),
    }
}

/// What the entries of a colors file are: none where there is no file, or
/// where it is not TOML.
pub open spec fn theme_entries(text: Option<Seq<char>>) -> Seq<(Seq<char>, TomlValueView)> {
    match text {
        Some(text) => match toml_document(text) {
            Ok(entries) => entries,
            Err(_) => seq![],
        },
        None => seq![],
    }
}

/// The colors of a theme, from the text of its colors file.
pub fn theme_colors(text: Option<&str>) -> (r: ThemeColors)
    ensures
        listed_colors(theme_entries(text.deep_view()), r),
{
    let entries = match text {
        Some(text) => match parse_toml(text) {
            Ok(entries) => entries,
            Err(_) => Vec::new(),
        },
        None => Vec::new(),
    };
    assert(entries.deep_view() == theme_entries(text.deep_view()));
    colors_in(&entries)
}

/// Whatever a theme says, only colors get into the stylesheet.
pub proof fn law_only_colors_are_defined(value: Option<Seq<char>>)
    ensures
        hex_color(chosen(value, "#1a1b26"@)),
        hex_color(chosen(value, "#a9b1d6"@)),
        hex_color(chosen(value, "#7aa2f7"@)),
        hex_color(chosen(value, "#f7768e"@)),
        hex_color(chosen(value, "#9ece6a"@)),
        hex_color(chosen(value, "#e0af68"@)),
{
    reveal_strlit("#");
    reveal_strlit("#1a1b26");
    reveal_strlit("#a9b1d6");
    reveal_strlit("#7aa2f7");
    reveal_strlit("#f7768e");
    reveal_strlit("#9ece6a");
    reveal_strlit("#e0af68");
    assert("#1a1b26"@.take(1) =~= "#"@);
    assert("#a9b1d6"@.take(1) =~= "#"@);
    assert("#7aa2f7"@.take(1) =~= "#"@);
    assert("#f7768e"@.take(1) =~= "#"@);
    assert("#9ece6a"@.take(1) =~= "#"@);
    assert("#e0af68"@.take(1) =~= "#"@);
}

/// Whether the definitions hold one of a name: the theme's color if it is one,
/// or a color all the same.
pub open spec fn defines(css: Seq<char>, name: Seq<char>, color: Option<String>) -> bool {
    exists|shown: Seq<char>|
        {
            &&& hex_color(shown)
            &&& color matches Some(given) ==> hex_color(given@) ==> shown == given@
            &&& holds(css, #[trigger] definition(name, shown))
        }
}

proof fn lemma_definition_held(before: Seq<char>, text: Seq<char>, after: Seq<char>)
    ensures
        holds(before + text + after, text),
{
    let all = before + text + after;
    let at = before.len() as int;
    assert(all.subrange(at, at + text.len() as int) =~= text);
}

/// Every color of a theme gets into the stylesheet under its name, where the
/// theme gives one.
pub proof fn law_given_colors_are_defined(colors: ThemeColors)
    ensures
        defines(definitions(colors), "panel_bg"@, colors.background),
        defines(definitions(colors), "panel_fg"@, colors.foreground),
        defines(definitions(colors), "panel_accent"@, colors.accent),
        defines(definitions(colors), "panel_danger"@, colors.color1),
        defines(definitions(colors), "panel_viewing"@, colors.color2),
        defines(definitions(colors), "panel_open"@, colors.color3),
{
    let css = definitions(colors);
    let c0 = chosen(colors.background.deep_view(), "#1a1b26"@);
    let c1 = chosen(colors.foreground.deep_view(), "#a9b1d6"@);
    let c2 = chosen(colors.accent.deep_view(), "#7aa2f7"@);
    let c3 = chosen(colors.color1.deep_view(), "#f7768e"@);
    let c4 = chosen(colors.color2.deep_view(), "#9ece6a"@);
    let c5 = chosen(colors.color3.deep_view(), "#e0af68"@);
    law_only_colors_are_defined(colors.background.deep_view());
    law_only_colors_are_defined(colors.foreground.deep_view());
    law_only_colors_are_defined(colors.accent.deep_view());
    law_only_colors_are_defined(colors.color1.deep_view());
    law_only_colors_are_defined(colors.color2.deep_view());
    law_only_colors_are_defined(colors.color3.deep_view());
    let d0 = definition("panel_bg"@, c0);
    let d1 = definition("panel_fg"@, c1);
    let d2 = definition("panel_accent"@, c2);
    let d3 = definition("panel_danger"@, c3);
    let d4 = definition("panel_viewing"@, c4);
    let d5 = definition("panel_open"@, c5);
    lemma_definition_held(seq![], d0, d1 + d2 + d3 + d4 + d5);
    assert(css =~= seq![] + d0 + (d1 + d2 + d3 + d4 + d5));
    lemma_definition_held(d0, d1, d2 + d3 + d4 + d5);
    assert(css =~= d0 + d1 + (d2 + d3 + d4 + d5));
    lemma_definition_held(d0 + d1, d2, d3 + d4 + d5);
    assert(css =~= d0 + d1 + d2 + (d3 + d4 + d5));
    lemma_definition_held(d0 + d1 + d2, d3, d4 + d5);
    assert(css =~= d0 + d1 + d2 + d3 + (d4 + d5));
    lemma_definition_held(d0 + d1 + d2 + d3, d4, d5);
    lemma_definition_held(d0 + d1 + d2 + d3 + d4, d5, seq![]);
    assert(css =~= d0 + d1 + d2 + d3 + d4 + d5 + seq![]);
}

/// A definition names the color for the stylesheet.
pub proof fn law_definitions_name_the_color(name: Seq<char>, color: Seq<char>)
    ensures
        begins(definition(name, color), "@define-color "@ + name + " "@),
        finishes(definition(name, color), " "@ + color + ";\n"@),
{
    let d = definition(name, color);
    let front = "@define-color "@ + name + " "@;
    let end = " "@ + color + ";\n"@;
    assert(d.take(front.len() as int) =~= front);
    assert(d.skip(d.len() - end.len()) =~= end);
}

} // verus!
