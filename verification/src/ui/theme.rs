//! The colour themes by name.

use vstd::prelude::*;
use crate::scan::{number_of, parse_number};
use crate::text::{chars_of, same_chars, slice_of};

verus! {

/// Whether a theme is meant for a dark or for a light background.
#[derive(Debug, Clone, Copy, PartialEq, Eq, Structural)]
pub enum ThemeVariant {
    Dark,
    Light,
}

/// The index after the last `;` of `s`, or zero if it holds none.
pub open spec fn last_field_start(s: Seq<char>) -> int
    decreases s.len(),
{
    if s.len() == 0 {
        0
    } else if s.last() == ';' {
        s.len() as int
    } else {
        last_field_start(s.drop_last())
    }
}

/// What follows the last `;` of `s`, or all of `s` if it holds none.
pub open spec fn last_field(s: Seq<char>) -> Seq<char> {
    s.skip(last_field_start(s))
}

/// Whether the colours that a terminal reports, as `foreground;background`,
/// tell of a light background: the last field is a number from 8 to 255.
pub open spec fn tells_light(colors: Seq<char>) -> bool {
    number_of(last_field(colors)) matches Some(n) && 8 <= n <= 255
}

/// The variant for a theme name: `light` and `dark` name theirs; under any
/// other name the colours that the terminal reports decide, and without
/// them the variant is the dark one.
pub open spec fn variant_named(name: Seq<char>, colors: Option<Seq<char>>) -> ThemeVariant {
    if name == "light"@ {
        ThemeVariant::Light
    } else if name == "dark"@ {
        ThemeVariant::Dark
    } else if colors matches Some(c) && tells_light(c) {
        ThemeVariant::Light
    } else {
        ThemeVariant::Dark
    }
}

/// Tests whether the colours that a terminal reports tell of a light
/// background.
pub fn is_light_background(colors: &str) -> (r: bool)
    ensures
        r == tells_light(colors@),
{
    let s = chars_of(colors);
    let mut start: usize = s.len();
    assert(s@.take(start as int) =~= s@);
    while start > 0 && s[start - 1] != ';'
        invariant
            start <= s.len(),
            last_field_start(s@.take(start as int)) == last_field_start(s@),
        decreases start,
    {
        assert(s@.take(start as int).drop_last() =~= s@.take(start - 1));
        start -= 1;
    }
    let field = slice_of(&s, start, s.len());
    assert(field@ =~= last_field(s@));
    match parse_number(&field) {
        Some(n) => 8 <= n && n <= 255,
        None => false,
    }
}

/// Chooses the variant for the theme name `name`, `colors` being the
/// colours that the terminal reports, if it reports any.
pub fn variant_for(name: &str, colors: Option<&str>) -> (r: ThemeVariant)
    ensures
        r == variant_named(name@, colors.deep_view()),
{
    let given = chars_of(name);
    if same_chars(&given, &chars_of("light")) {
        return ThemeVariant::Light;
    }
    if same_chars(&given, &chars_of("dark")) {
        return ThemeVariant::Dark;
    }
    match colors {
        Some(c) => if is_light_background(c) {
            ThemeVariant::Light
        } else {
            ThemeVariant::Dark
        },
        None => ThemeVariant::Dark,
    }
}

/// The name of the syntax-colouring theme that goes with a variant.
pub open spec fn syntect_theme_name(variant: ThemeVariant) -> Seq<char> {
    match variant {
        ThemeVariant::Dark => "base16-ocean.dark"@,
        ThemeVariant::Light => "InspiredGitHub"@,
    }
}

/// The name of the syntax-colouring theme to use with `variant`.
pub fn syntect_theme(variant: ThemeVariant) -> (r: &'static str)
    ensures
        r@ == syntect_theme_name(variant),
{
    match variant {
        ThemeVariant::Dark => "base16-ocean.dark",
        ThemeVariant::Light => "InspiredGitHub",
    }
}

} // verus!
