//! Shown while a saved session is being restored.

use vstd::prelude::*;

verus! {

/// A spinner, without anything to choose.
#[derive(Debug)]
pub struct RestoringScreen;

impl RestoringScreen {
    pub fn new() -> (r: Self)
        ensures
            r == RestoringScreen,
    {
        RestoringScreen
    }

    /// What is shown behind an icon.
    pub fn show(&self, icon: &str) -> (r: String)
        ensures
            r@ == icon@ + "  Reconnexion en cours…"@,
    {
        crate::text::joined(icon, "  Reconnexion en cours…")
    }
}

impl Default for RestoringScreen {
    fn default() -> (r: Self)
        ensures
            r == RestoringScreen,
    {
        RestoringScreen::new()
    }
}

} // verus!
