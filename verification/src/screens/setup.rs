//! Choice of an operator, and entry of the credentials.

use crate::text;
use crate::text::chars_of;
use vstd::prelude::*;

verus! {

/// What was chosen and typed.
#[derive(Debug)]
pub struct SetupScreen {
    /// The operator chosen, by its name in the configuration.
    pub selected_operator: Option<String>,
    pub username: String,
    pub password: String,
    /// A further credential that some operators ask for.
    pub extra: String,
    pub error_message: Option<String>,
    pub loading: bool,
}

/// What is known of a `SetupScreen`.
pub struct SetupView {
    pub selected_operator: Option<Seq<char>>,
    pub username: Seq<char>,
    pub password: Seq<char>,
    pub extra: Seq<char>,
    pub error_message: Option<Seq<char>>,
    pub loading: bool,
}

/// What the screen asks for.
#[derive(Debug)]
pub enum SetupAction {
    Nothing,
    /// Authenticate, and fetch the channels.
    StartAuth { operator: String, username: String, password: String, extra: Option<String> },
}

/// What an operator asks for.
#[derive(Debug, Clone, Copy, PartialEq, Eq)]
pub struct OperatorNeeds {
    /// A user name and a password.
    pub auth: bool,
    /// A further credential.
    pub extra: bool,
}

/// Nothing chosen, nothing typed.
pub open spec fn blank_setup() -> SetupView {
    SetupView {
        selected_operator: None,
        username: Seq::empty(),
        password: Seq::empty(),
        extra: Seq::empty(),
        error_message: None,
        loading: false,
    }
}

/// Nothing chosen, nothing typed, and an error shown.
pub open spec fn setup_with_error(message: Seq<char>) -> SetupView {
    SetupView { error_message: Some(message), ..blank_setup() }
}

impl View for SetupScreen {
    type V = SetupView;

    open spec fn view(&self) -> SetupView {
        SetupView {
            selected_operator: text::opt_text(self.selected_operator),
            username: self.username@,
            password: self.password@,
            extra: self.extra@,
            error_message: text::opt_text(self.error_message),
            loading: self.loading,
        }
    }
}

impl SetupView {
    /// Whether the credentials that the operator asks for have been typed.
    pub open spec fn complete(self, needs: OperatorNeeds) -> bool {
        &&& self.selected_operator is Some
        &&& needs.auth
        &&& self.username.len() > 0
        &&& self.password.len() > 0
        &&& needs.extra ==> self.extra.len() > 0
    }
}

impl SetupScreen {
    /// Nothing chosen, nothing typed.
    pub fn new() -> (r: Self)
        ensures
            r@ == blank_setup(),
    {
        SetupScreen {
            selected_operator: None,
            username: String::new(),
            password: String::new(),
            extra: String::new(),
            error_message: None,
            loading: false,
        }
    }

    /// Nothing chosen, nothing typed, and an error shown.
    pub fn with_error(message: String) -> (r: Self)
        ensures
            r@ == setup_with_error(message@),
    {
        let mut r = SetupScreen::new();
        r.set_error(message);
        r
    }

    /// Shows an error; nothing is waited for any longer.
    pub fn set_error(&mut self, message: String)
        ensures
            final(self)@ == (SetupView {
                loading: false,
                error_message: Some(message@),
                ..old(self)@
            }),
    {
        self.loading = false;
        self.error_message = Some(message);
    }

    /// Whether authentication is waited for; the error shown goes when it begins.
    pub fn set_loading(&mut self, loading: bool)
        ensures
            final(self)@ == (SetupView {
                loading,
                error_message: if loading { None } else { old(self)@.error_message },
                ..old(self)@
            }),
    {
        self.loading = loading;
        if loading {
            self.error_message = None;
        }
    }

    /// An operator is chosen.
    pub fn select(&mut self, operator: &str)
        ensures
            final(self)@ == (SetupView {
                selected_operator: Some(operator@),
                error_message: None,
                ..old(self)@
            }),
    {
        self.selected_operator = Some(operator.to_owned());
        self.error_message = None;
    }

    /// What is written on the button.
    pub fn button_label(&self) -> (r: &'static str)
        ensures
            r@ == if self@.loading { "Connexion…"@ } else { "Regarder la TV"@ },
    {
        if self.loading {
            "Connexion…"
        } else {
            "Regarder la TV"
        }
    }

    /// One step of the screen: whether the button was pressed. Authentication begins once
    /// all that the operator asks for has been typed.
    pub fn show(&mut self, clicked: bool, needs: OperatorNeeds) -> (r: SetupAction)
        ensures
            match r {
                SetupAction::StartAuth { operator, username, password, extra } => {
                    &&& clicked
                    &&& old(self)@.complete(needs)
                    &&& old(self)@.selected_operator == Some(operator@)
                    &&& username@ == old(self)@.username
                    &&& password@ == old(self)@.password
                    &&& text::opt_text(extra) == if needs.extra {
                        Some(old(self)@.extra)
                    } else {
                        None
                    }
                    &&& final(self)@ == (SetupView {
                        loading: true,
                        error_message: None,
                        ..old(self)@
                    })
                },
                SetupAction::Nothing => {
                    &&& !clicked || !old(self)@.complete(needs)
                    &&& final(self)@ == old(self)@
                },
            },
    {
        let operator = match &self.selected_operator {
            None => return SetupAction::Nothing,
            Some(o) => o.clone(),
        };
        let typed = chars_of(self.username.as_str()).len() > 0 && chars_of(
            self.password.as_str(),
        ).len() > 0 && (!needs.extra || chars_of(self.extra.as_str()).len() > 0);
        if !(clicked && needs.auth && typed) {
            return SetupAction::Nothing;
        }
        let extra = if needs.extra {
            Some(self.extra.clone())
        } else {
            None
        };
        let action = SetupAction::StartAuth {
            operator,
            username: self.username.clone(),
            password: self.password.clone(),
            extra,
        };
        self.set_loading(true);
        action
    }
}

impl Default for SetupScreen {
    fn default() -> (r: Self)
        ensures
            r@ == blank_setup(),
    {
        SetupScreen::new()
    }
}

} // verus!
