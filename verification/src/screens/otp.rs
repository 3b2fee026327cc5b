//! Entry of a one-time code.

use crate::text;
use crate::text::{chars_of, text_of, trim};
use vstd::prelude::*;

verus! {

/// The code typed so far, and whether it was submitted.
#[derive(Debug)]
pub struct OtpScreen {
    pub code: String,
    pub submitted: bool,
}

/// What the screen asks for.
#[derive(Debug, PartialEq, Eq)]
pub enum OtpAction {
    Nothing,
    /// Verify this code.
    Submit(String),
    /// Give up authentication.
    Cancel,
}

impl OtpScreen {
    /// Nothing has been typed.
    pub fn new() -> (r: Self)
        ensures
            r.code@ == Seq::<char>::empty(),
            !r.submitted,
    {
        OtpScreen { code: String::new(), submitted: false }
    }

    /// One step of the screen: whether the code was confirmed, and whether entry was given
    /// up. A code that is only white space is not submitted, and nothing is asked for while
    /// one is being verified.
    pub fn show(&mut self, confirmed: bool, cancelled: bool) -> (r: OtpAction)
        ensures
            final(self).code == old(self).code,
            ({
                let typed = text::trimmed(old(self).code@);
                let submits = !old(self).submitted && confirmed && typed.len() > 0;
                &&& final(self).submitted == (old(self).submitted || submits)
                &&& match r {
                    OtpAction::Cancel => !old(self).submitted && cancelled,
                    OtpAction::Submit(code) => submits && !cancelled && code@ == typed,
                    OtpAction::Nothing => old(self).submitted || (!submits && !cancelled),
                }
            }),
    {
        if self.submitted {
            return OtpAction::Nothing;
        }
        let all = chars_of(self.code.as_str());
        let typed = trim(all.as_slice());
        let mut action = OtpAction::Nothing;
        if confirmed && typed.len() > 0 {
            self.submitted = true;
            action = OtpAction::Submit(text_of(typed));
        }
        if cancelled {
            action = OtpAction::Cancel;
        }
        action
    }
}

impl Default for OtpScreen {
    fn default() -> (r: Self)
        ensures
            r.code@ == Seq::<char>::empty(),
            !r.submitted,
    {
        OtpScreen::new()
    }
}

} // verus!
