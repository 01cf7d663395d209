//! Day and night theme of the page, and how the choice is remembered.

use vstd::prelude::*;

verus! {

broadcast use vstd::string::group_string_axioms;

/// The value stored under the `theme` key for a theme.
pub open spec fn theme_value(dark: bool) -> Seq<char> {
    if dark {
        "dark"@
    } else {
        "light"@
    }
}

/// The stored value that selects the night theme.
pub open spec fn stored_dark(stored: Option<String>) -> bool {
    stored matches Some(v) && v@ == "dark"@
}

/// The theme a page starts in: night when the stored value is `dark`, day
/// otherwise (nothing stored, or any other value).
pub fn initial_dark(stored: Option<String>) -> (r: bool)
    ensures
        r == stored_dark(stored),
        r <==> (stored matches Some(v) && v@ == "dark"@),
{
    match stored {
        Some(v) => {
            let dark = String::from_str("dark");
            v == dark
        },
        None => false,
    }
}

/// The value to store for the current theme.
pub fn theme_name(dark: bool) -> (r: &'static str)
    ensures
        r@ == theme_value(dark),
        dark ==> r@ == "dark"@,
        !dark ==> r@ == "light"@,
{
    if dark {
        "dark"
    } else {
        "light"
    }
}

/// The caption of the theme button: it offers the other theme.
pub open spec fn toggle_caption(dark: bool) -> Seq<char> {
    if dark {
        "☀ Day"@
    } else {
        "🌙 Night"@
    }
}

/// The caption of the theme button.
pub fn toggle_label(dark: bool) -> (r: &'static str)
    ensures
        r@ == toggle_caption(dark),
        dark ==> r@ == "☀ Day"@,
        !dark ==> r@ == "🌙 Night"@,
{
    if dark {
        "☀ Day"
    } else {
        "🌙 Night"
    }
}

/// The theme survives a reload: what is stored for a theme selects that same
/// theme when the page starts again.
pub proof fn lemma_theme_persists(dark: bool, stored: String)
    requires
        stored@ == theme_value(dark),
    ensures
        stored_dark(Some(stored)) == dark,
{
    reveal_strlit("dark");
    reveal_strlit("light");
    if !dark {
        assert(stored@[0] != "dark"@[0]);
    }
}

} // verus!
