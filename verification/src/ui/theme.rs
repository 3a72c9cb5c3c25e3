//! The colour themes of the application.

use vstd::prelude::*;

verus! {

/// A colour theme.
#[derive(Debug, Clone, Copy, PartialEq, Eq, Structural)]
pub enum AppThemeVariant {
    Light,
    Dark,
}

impl Default for AppThemeVariant {
    fn default() -> (r: Self)
        ensures
            r == AppThemeVariant::Light,
    {
        AppThemeVariant::Light
    }
}

/// The other theme.
pub open spec fn toggled(t: AppThemeVariant) -> AppThemeVariant {
    match t {
        AppThemeVariant::Light => AppThemeVariant::Dark,
        AppThemeVariant::Dark => AppThemeVariant::Light,
    }
}

/// The name of a theme.
pub open spec fn theme_name(t: AppThemeVariant) -> Seq<char> {
    match t {
        AppThemeVariant::Light => "Light"@,
        AppThemeVariant::Dark => "Dark"@,
    }
}

impl AppThemeVariant {
    /// The other theme: dark after light, light after dark.
    pub fn toggle(&self) -> (r: Self)
        ensures
            r == toggled(*self),
    {
        match self {
            AppThemeVariant::Light => AppThemeVariant::Dark,
            AppThemeVariant::Dark => AppThemeVariant::Light,
        }
    }

    /// The name of the theme: `Light` or `Dark`.
    pub fn name(&self) -> (r: &'static str)
        ensures
            r@ == theme_name(*self),
    {
        match self {
            AppThemeVariant::Light => "Light",
            AppThemeVariant::Dark => "Dark",
        }
    }
}

/// Toggling the theme changes it, and toggling twice gives it back.
pub proof fn lemma_toggle_involution(t: AppThemeVariant)
    ensures
        toggled(t) != t,
        toggled(toggled(t)) == t,
{
}

} // verus!
