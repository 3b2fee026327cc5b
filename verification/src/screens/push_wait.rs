//! Shown while the user is to approve the connection on a telephone.

use crate::text;
use crate::text::{chars_of, push_number, push_text, text_of};
use vstd::prelude::*;

verus! {

/// One second.
pub const SECOND: u64 = 1_000_000_000;

/// After how long the request expires.
pub const EXPIRY: u64 = 90_000_000_000;

/// How long the screen has been shown.
#[derive(Debug)]
pub struct PushWaitScreen {
    pub elapsed: u64,
}

/// What the screen shows.
#[derive(Debug)]
pub struct PushWaitText {
    /// That approval is waited for.
    pub waiting: String,
    /// When the request expires, where that is shown.
    pub expiry: Option<String>,
}

/// The dots behind the text: one, two, three, each for a third of a cycle of one and a half
/// seconds.
pub open spec fn dots(elapsed: u64) -> Seq<char> {
    let phase = elapsed as int % 1_500_000_000;
    if phase < 500_000_000 {
        "."@
    } else if phase < 1_000_000_000 {
        ".."@
    } else {
        "..."@
    }
}

/// The seconds left, whole ones.
pub open spec fn seconds_left(elapsed: u64) -> nat {
    if elapsed < EXPIRY {
        ((EXPIRY - elapsed) / 1_000_000_000) as nat
    } else {
        0
    }
}

impl PushWaitScreen {
    pub fn new() -> (r: Self)
        ensures
            r.elapsed == 0,
    {
        PushWaitScreen { elapsed: 0 }
    }

    /// One step of the screen, `dt` after the last one. The expiry is shown after ten
    /// seconds.
    pub fn show(&mut self, dt: u64) -> (r: PushWaitText)
        ensures
            final(self).elapsed == if old(self).elapsed + dt <= u64::MAX {
                (old(self).elapsed + dt) as u64
            } else {
                u64::MAX
            },
            r.waiting@ == "En attente"@ + dots(final(self).elapsed),
            r.expiry is Some <==> final(self).elapsed > 10 * SECOND,
            r.expiry matches Some(e) ==> e@ == "Expiration dans "@ + text::decimal(
                seconds_left(final(self).elapsed),
            ) + "s"@,
    {
        self.elapsed = self.elapsed.saturating_add(dt);
        let phase: u64 = self.elapsed % 1_500_000_000;
        let waiting = if phase < SECOND / 2 {
            text::joined("En attente", ".")
        } else if phase < SECOND {
            text::joined("En attente", "..")
        } else {
            text::joined("En attente", "...")
        };
        let expiry = if self.elapsed > 10 * SECOND {
            let left: u64 = if self.elapsed < EXPIRY {
                (EXPIRY - self.elapsed) / SECOND
            } else {
                0
            };
            let mut out: Vec<char> = chars_of("Expiration dans ");
            push_number(&mut out, left);
            push_text(&mut out, "s");
            Some(text_of(out.as_slice()))
        } else {
            None
        };
        PushWaitText { waiting, expiry }
    }
}

impl Default for PushWaitScreen {
    fn default() -> (r: Self)
        ensures
            r.elapsed == 0,
    {
        PushWaitScreen::new()
    }
}

} // verus!
