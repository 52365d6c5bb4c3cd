//! The colour themes the user can pick.

use vstd::prelude::*;

verus! {

/// One of the Catppuccin palettes.
#[derive(Debug, Clone, Copy, PartialEq, Eq, Structural)]
pub enum ThemeChoice {
    Mocha,
    Macchiato,
    Frappe,
    Latte,
}

/// The name shown in the theme picker.
pub open spec fn theme_display(t: ThemeChoice) -> Seq<char> {
    match t {
        ThemeChoice::Mocha => "Mocha (dark)"@,
        ThemeChoice::Macchiato => "Macchiato (dark)"@,
        ThemeChoice::Frappe => "Frappé (dark)"@,
        ThemeChoice::Latte => "Latte (light)"@,
    }
}

impl ThemeChoice {
    pub fn display(self) -> (res: &'static str)
        ensures
            res@ == theme_display(self),
    {
        match self {
            ThemeChoice::Mocha => "Mocha (dark)",
            ThemeChoice::Macchiato => "Macchiato (dark)",
            ThemeChoice::Frappe => "Frappé (dark)",
            ThemeChoice::Latte => "Latte (light)",
        }
    }

    /// Every theme, in the order the picker lists them.
    pub fn all() -> (res: [ThemeChoice; 4])
        ensures
            res@ == seq![
                ThemeChoice::Mocha,
                ThemeChoice::Macchiato,
                ThemeChoice::Frappe,
                ThemeChoice::Latte,
            ],
    {
        let res = [ThemeChoice::Mocha, ThemeChoice::Macchiato, ThemeChoice::Frappe, ThemeChoice::Latte];
        assert(res@ =~= seq![
            ThemeChoice::Mocha,
            ThemeChoice::Macchiato,
            ThemeChoice::Frappe,
            ThemeChoice::Latte,
        ]);
        res
    }

    /// Every theme but Latte is dark.
    pub fn is_dark(self) -> (res: bool)
        ensures
            res == !(self is Latte),
    {
        !matches!(self, ThemeChoice::Latte)
    }
}

} // verus!
