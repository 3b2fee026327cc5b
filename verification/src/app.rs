//! Which screen is shown, and what the messages of the background tasks and the actions of
//! the screens lead to.

use crate::channel;
use crate::channel::{copies, find_channel, Channel, ChannelView};
use crate::proxy;
use crate::proxy::is_url;
use crate::screens::channel_list::{ChannelListAction, ChannelListScreen};
use crate::screens::otp::{OtpAction, OtpScreen};
use crate::screens::player::{PlayerAction, PlayerScreen};
use crate::screens::push_wait::PushWaitScreen;
use crate::screens::restoring::RestoringScreen;
use crate::screens::setup;
use crate::screens::setup::{SetupAction, SetupScreen};
use crate::text;
use crate::text::chars_of;
use crate::text_map::TextSet;
use vstd::prelude::*;

verus! {

/// The screen shown.
#[derive(Debug)]
pub enum Screen {
    /// A saved session is being restored.
    Restoring(RestoringScreen),
    Setup(SetupScreen),
    PushWait(PushWaitScreen),
    Otp(OtpScreen),
    ChannelList(ChannelListScreen),
    Player(Box<PlayerScreen>),
}

/// The state of the application.
#[derive(Debug)]
pub struct App {
    pub screen: Screen,
    pub channels: Vec<Channel>,
    /// Whether an operator is connected.
    pub has_operator: bool,
    /// The operator and the user of the session.
    pub current_session: Option<(String, String)>,
    /// Whether authentication waits for a one-time code.
    pub otp_pending: bool,
}

/// What a background task reports.
#[derive(Debug)]
pub enum AppMsg {
    AuthErr(String),
    PushAuthPending,
    OtpRequired,
    ChannelsOk {
        channels: Vec<Channel>,
        session_token: Option<String>,
        kind_str: String,
        username: String,
    },
    ChannelsErr(String),
    StreamOk { protected: bool },
    StreamErr(String),
    DrmProxyReady { proxy_mpd_url: String },
    DrmProxyErr(String),
    SessionExpired,
    WidevineDone,
    WidevineErr(String),
}

/// What is done besides a change of state.
#[derive(Debug)]
pub enum Effect {
    SaveSession { kind: String, username: String, token: String },
    ClearSession { kind: String, username: String },
    KeepOperator,
    DropOperator,
    FetchLogos(Vec<String>),
    /// Set up decryption of the stream.
    StartDrm,
    /// Play the stream.
    Play,
    KeepProxy,
    DropProxy,
    /// Play what the proxy serves at this URL.
    PlayProxy(String),
    KeepResponder,
    DropResponder,
    SendCode(String),
    StartAuth { operator: String, username: String, password: String, extra: Option<String> },
    ResolveStream(Channel),
}

/// What is known of an `Effect`.
pub enum EffectView {
    SaveSession { kind: Seq<char>, username: Seq<char>, token: Seq<char> },
    ClearSession { kind: Seq<char>, username: Seq<char> },
    KeepOperator,
    DropOperator,
    FetchLogos(Seq<Seq<char>>),
    StartDrm,
    Play,
    KeepProxy,
    DropProxy,
    PlayProxy(Seq<char>),
    KeepResponder,
    DropResponder,
    SendCode(Seq<char>),
    StartAuth {
        operator: Seq<char>,
        username: Seq<char>,
        password: Seq<char>,
        extra: Option<Seq<char>>,
    },
    ResolveStream(ChannelView),
}

impl Effect {
    pub open spec fn view(&self) -> EffectView {
        match self {
            Effect::SaveSession { kind, username, token } => EffectView::SaveSession {
                kind: kind@,
                username: username@,
                token: token@,
            },
            Effect::ClearSession { kind, username } => EffectView::ClearSession {
                kind: kind@,
                username: username@,
            },
            Effect::KeepOperator => EffectView::KeepOperator,
            Effect::DropOperator => EffectView::DropOperator,
            Effect::FetchLogos(urls) => EffectView::FetchLogos(
                urls@.map_values(|u: String| u@),
            ),
            Effect::StartDrm => EffectView::StartDrm,
            Effect::Play => EffectView::Play,
            Effect::KeepProxy => EffectView::KeepProxy,
            Effect::DropProxy => EffectView::DropProxy,
            Effect::PlayProxy(u) => EffectView::PlayProxy(u@),
            Effect::KeepResponder => EffectView::KeepResponder,
            Effect::DropResponder => EffectView::DropResponder,
            Effect::SendCode(c) => EffectView::SendCode(c@),
            Effect::StartAuth { operator, username, password, extra } => EffectView::StartAuth {
                operator: operator@,
                username: username@,
                password: password@,
                extra: text::opt_text(*extra),
            },
            Effect::ResolveStream(c) => EffectView::ResolveStream(c@),
        }
    }
}

/// The effects of a list.
pub open spec fn effect_views(effects: Seq<Effect>) -> Seq<EffectView> {
    effects.map_values(|e: Effect| e@)
}

// ---------------------------------------------------------------------------
// Logos
// ---------------------------------------------------------------------------

/// The logos of channels, each URL once, where it occurs first.
pub open spec fn logo_urls(channels: Seq<ChannelView>) -> Seq<Seq<char>>
    decreases channels.len(),
{
    if channels.len() == 0 {
        Seq::empty()
    } else {
        let before = logo_urls(channels.drop_last());
        match channels.last().logo_url {
            Some(url) if !before.contains(url) => before.push(url),
            _ => before,
        }
    }
}

/// The logos of channels, each URL once.
pub fn wanted_logos(channels: &[Channel]) -> (r: Vec<String>)
    ensures
        r@.map_values(|u: String| u@) == logo_urls(channel::views(channels@)),
{
    let mut seen = TextSet::new();
    let mut r: Vec<String> = Vec::new();
    let mut i: usize = 0;
    let ghost shown = |u: String| u@;
    assert(channel::views(channels@).take(0) =~= Seq::<ChannelView>::empty());
    assert(r@.map_values(shown) =~= logo_urls(channel::views(channels@).take(0)));
    assert forall|u: Seq<char>| seen@.contains(u) == r@.map_values(shown).contains(u) by {}
    while i < channels.len()
        invariant
            i <= channels@.len(),
            shown == (|u: String| u@),
            r@.map_values(shown) == logo_urls(channel::views(channels@).take(i as int)),
            forall|u: Seq<char>| #[trigger]
                seen@.contains(u) == r@.map_values(shown).contains(u),
        decreases channels@.len() - i,
    {
        let ghost all = channel::views(channels@);
        let ghost before = r@.map_values(shown);
        proof {
            assert(all.take(i + 1).drop_last() =~= all.take(i as int));
            assert(all.take(i + 1).last() == channels@[i as int]@);
        }
        match &channels[i].logo_url {
            Some(url) => {
                assert(seen@.contains(url@) == before.contains(url@));
                if !seen.contains(url.as_str()) {
                    seen.insert(url.as_str());
                    r.push(url.clone());
                    proof {
                        let after = r@.map_values(shown);
                        assert(after =~= before.push(url@));
                        assert forall|u: Seq<char>| #[trigger] seen@.contains(u)
                            == after.contains(u) by {
                            if before.contains(u) {
                                let k = choose|k: int| 0 <= k < before.len() && before[k] == u;
                                assert(after[k] == u);
                            }
                            if after.contains(u) && u != url@ {
                                let k = choose|k: int| 0 <= k < after.len() && after[k] == u;
                                assert(before[k] == u);
                            }
                            assert(after[before.len() as int] == url@);
                        }
                    }
                }
            },
            None => {},
        }
        i += 1;
    }
    assert(channel::views(channels@).take(i as int) =~= channel::views(channels@));
    r
}

// ---------------------------------------------------------------------------
// Neighbours of a channel
// ---------------------------------------------------------------------------

/// The place behind another one, and from the last one the first.
pub open spec fn next_place(i: int, count: int) -> int {
    if i + 1 < count {
        i + 1
    } else {
        0
    }
}

/// The place before another one, and from the first one the last.
pub open spec fn prev_place(i: int, count: int) -> int {
    if i == 0 {
        count - 1
    } else {
        i - 1
    }
}

/// Going on and going back undo each other.
pub proof fn neighbours_undo_each_other(i: int, count: int)
    requires
        0 <= i < count,
    ensures
        0 <= next_place(i, count) < count,
        0 <= prev_place(i, count) < count,
        prev_place(next_place(i, count), count) == i,
        next_place(prev_place(i, count), count) == i,
        next_place(i, count) == (i + 1) % count,
{
    if i + 1 < count {
        vstd::arithmetic::div_mod::lemma_small_mod((i + 1) as nat, count as nat);
    } else {
        vstd::arithmetic::div_mod::lemma_mod_self_0(count);
    }
}

// ---------------------------------------------------------------------------
// The application
// ---------------------------------------------------------------------------

impl App {
    /// Whether the list of channels is shown as at first.
    pub open spec fn lists(&self, channels: Seq<ChannelView>) -> bool {
        self.screen matches Screen::ChannelList(l) && l.is_fresh(channels)
    }

    /// Whether the setup screen is shown, in this state.
    pub open spec fn sets_up(&self, view: setup::SetupView) -> bool {
        self.screen matches Screen::Setup(s) && s@ == view
    }

    /// The application at its start: a session that can be restored is, without a choice of
    /// operators in between.
    pub fn new(restorable: bool) -> (r: Self)
        ensures
            restorable ==> r.screen is Restoring,
            !restorable ==> r.sets_up(setup::blank_setup()),
            r.channels@.len() == 0,
            !r.has_operator,
            r.current_session is None,
            !r.otp_pending,
    {
        App {
            screen: if restorable {
                Screen::Restoring(RestoringScreen::new())
            } else {
                Screen::Setup(SetupScreen::new())
            },
            channels: Vec::new(),
            has_operator: false,
            current_session: None,
            otp_pending: false,
        }
    }

    /// Back to the list of all channels.
    fn list_again(&mut self)
        ensures
            final(self).lists(channel::views(old(self).channels@)),
            *final(self) == (App { screen: final(self).screen, ..*old(self) }),
    {
        let list = ChannelListScreen::new(copies(self.channels.as_slice()));
        self.screen = Screen::ChannelList(list);
    }

    /// Takes in what a background task reports.
    pub fn on_message(&mut self, msg: AppMsg) -> (r: Vec<Effect>)
        ensures
            responds(*old(self), msg, *final(self), effect_views(r@)),
    {
        let mut effects: Vec<Effect> = Vec::new();
        let ghost none = effect_views(effects@);
        assert(none =~= Seq::<EffectView>::empty());
        match msg {
            AppMsg::AuthErr(e) => {
                let message = text::joined("Connexion échouée : ", e.as_str());
                match &mut self.screen {
                    Screen::Setup(s) => {
                        s.set_error(message);
                    },
                    Screen::PushWait(_) | Screen::Otp(_) => {
                        self.otp_pending = false;
                        self.screen = Screen::Setup(SetupScreen::with_error(message));
                        effects.push(Effect::DropResponder);
                        assert(effect_views(effects@) =~= seq![EffectView::DropResponder]);
                    },
                    _ => {},
                }
            },
            AppMsg::PushAuthPending => {
                self.screen = Screen::PushWait(PushWaitScreen::new());
            },
            AppMsg::OtpRequired => {
                self.otp_pending = true;
                self.screen = Screen::Otp(OtpScreen::new());
                effects.push(Effect::KeepResponder);
                assert(effect_views(effects@) =~= seq![EffectView::KeepResponder]);
            },
            AppMsg::ChannelsOk { channels, session_token, kind_str, username } => {
                match session_token {
                    Some(token) => effects.push(
                        Effect::SaveSession {
                            kind: kind_str.clone(),
                            username: username.clone(),
                            token,
                        },
                    ),
                    None => {},
                }
                effects.push(Effect::FetchLogos(wanted_logos(channels.as_slice())));
                effects.push(Effect::KeepOperator);
                self.current_session = Some((kind_str, username));
                self.channels = channels;
                self.has_operator = true;
                self.list_again();
                proof {
                    let logos = EffectView::FetchLogos(logo_urls(channel::views(channels@)));
                    assert(effect_views(effects@) =~= match text::opt_text(session_token) {
                        Some(token) => seq![
                            EffectView::SaveSession {
                                kind: kind_str@,
                                username: username@,
                                token,
                            },
                            logos,
                            EffectView::KeepOperator,
                        ],
                        None => seq![logos, EffectView::KeepOperator],
                    });
                }
            },
            AppMsg::ChannelsErr(e) => {
                let message = text::joined("Erreur chargement chaînes : ", e.as_str());
                match &mut self.screen {
                    Screen::Setup(s) => {
                        s.set_error(message);
                    },
                    Screen::Restoring(_) => {
                        self.screen = Screen::Setup(SetupScreen::with_error(message));
                    },
                    _ => {},
                }
            },
            AppMsg::StreamOk { protected } => {
                if protected {
                    effects.push(Effect::StartDrm);
                    assert(effect_views(effects@) =~= seq![EffectView::StartDrm]);
                } else {
                    match &mut self.screen {
                        Screen::Player(p) => {
                            p.start_playing();
                            effects.push(Effect::Play);
                            assert(effect_views(effects@) =~= seq![EffectView::Play]);
                        },
                        _ => {},
                    }
                }
            },
            AppMsg::DrmProxyReady { proxy_mpd_url } => {
                effects.push(Effect::KeepProxy);
                assert(effect_views(effects@) =~= seq![EffectView::KeepProxy]);
                let playable = is_url(proxy_mpd_url.as_str());
                match &mut self.screen {
                    Screen::Player(p) => {
                        if playable {
                            p.start_playing();
                            effects.push(Effect::PlayProxy(proxy_mpd_url));
                            assert(effect_views(effects@) =~= seq![
                                EffectView::KeepProxy,
                                EffectView::PlayProxy(proxy_mpd_url@),
                            ]);
                        }
                    },
                    _ => {},
                }
            },
            AppMsg::DrmProxyErr(_) => {
                self.list_again();
            },
            AppMsg::StreamErr(_) => {
                self.list_again();
            },
            AppMsg::SessionExpired => {
                match self.current_session.take() {
                    Some((kind, username)) => effects.push(
                        Effect::ClearSession { kind, username },
                    ),
                    None => {},
                }
                effects.push(Effect::DropOperator);
                self.has_operator = false;
                self.channels = Vec::new();
                self.screen = Screen::Setup(
                    SetupScreen::with_error(
                        "Session expirée. Veuillez vous reconnecter.".to_owned(),
                    ),
                );
                proof {
                    assert(effect_views(effects@) =~= match old(self).current_session {
                        Some((kind, username)) => seq![
                            EffectView::ClearSession { kind: kind@, username: username@ },
                            EffectView::DropOperator,
                        ],
                        None => seq![EffectView::DropOperator],
                    });
                }
            },
            AppMsg::WidevineDone => {},
            AppMsg::WidevineErr(_) => {},
        }
        effects
    }

    /// Takes in what the setup screen asks for.
    pub fn on_setup(&self, action: SetupAction) -> (r: Option<Effect>)
        ensures
            match action {
                SetupAction::StartAuth { operator, username, password, extra } => r == Some(
                    Effect::StartAuth { operator, username, password, extra },
                ),
                SetupAction::Nothing => r is None,
            },
    {
        match action {
            SetupAction::StartAuth { operator, username, password, extra } => Some(
                Effect::StartAuth { operator, username, password, extra },
            ),
            SetupAction::Nothing => None,
        }
    }

    /// Takes in what the screen for a one-time code asks for. A code is sent once.
    pub fn on_otp(&mut self, action: OtpAction) -> (r: Option<Effect>)
        ensures
            match action {
                OtpAction::Submit(code) => {
                    &&& *final(self) == (App { otp_pending: false, ..*old(self) })
                    &&& r == if old(self).otp_pending {
                        Some(Effect::SendCode(code))
                    } else {
                        None
                    }
                },
                OtpAction::Cancel => {
                    &&& final(self).sets_up(setup::blank_setup())
                    &&& *final(self) == (App {
                        screen: final(self).screen,
                        otp_pending: false,
                        ..*old(self)
                    })
                    &&& r == Some(Effect::DropResponder)
                },
                OtpAction::Nothing => *final(self) == *old(self) && r is None,
            },
    {
        match action {
            OtpAction::Submit(code) => {
                if self.otp_pending {
                    self.otp_pending = false;
                    Some(Effect::SendCode(code))
                } else {
                    None
                }
            },
            OtpAction::Cancel => {
                self.otp_pending = false;
                self.screen = Screen::Setup(SetupScreen::new());
                Some(Effect::DropResponder)
            },
            OtpAction::Nothing => None,
        }
    }

    /// Asks for the stream of a channel, where an operator is connected.
    fn resolve(&self, channel: Channel) -> (r: Option<Effect>)
        ensures
            r == if self.has_operator {
                Some(Effect::ResolveStream(channel))
            } else {
                None
            },
    {
        if self.has_operator {
            Some(Effect::ResolveStream(channel))
        } else {
            None
        }
    }

    /// Takes in what the list of channels asks for.
    pub fn on_list(&mut self, action: ChannelListAction) -> (r: Option<Effect>)
        ensures
            match action {
                ChannelListAction::SelectChannel(c) => {
                    &&& final(self).screen matches Screen::Player(p)
                    &&& *p == (PlayerScreen {
                        channel: *c,
                        state: crate::screens::player::PlayerState::Loading,
                        info_visible: false,
                        info_left: 0,
                        fullscreen: false,
                    })
                    &&& *final(self) == (App { screen: final(self).screen, ..*old(self) })
                    &&& resolves(*old(self), c@, r)
                },
                ChannelListAction::ChangeProvider => {
                    &&& final(self).sets_up(setup::blank_setup())
                    &&& final(self).channels@.len() == 0
                    &&& *final(self) == (App {
                        screen: final(self).screen,
                        channels: final(self).channels,
                        has_operator: false,
                        ..*old(self)
                    })
                    &&& r == Some(Effect::DropOperator)
                },
                ChannelListAction::Nothing => *final(self) == *old(self) && r is None,
            },
    {
        match action {
            ChannelListAction::SelectChannel(c) => {
                let wanted = self.resolve((*c).clone());
                self.screen = Screen::Player(Box::new(PlayerScreen::new(*c)));
                wanted
            },
            ChannelListAction::ChangeProvider => {
                self.has_operator = false;
                self.channels = Vec::new();
                self.screen = Screen::Setup(SetupScreen::new());
                Some(Effect::DropOperator)
            },
            ChannelListAction::Nothing => None,
        }
    }

    /// Takes in what the player's screen asks for while it shows the channel with this
    /// identifier: back to the list, or the stream of a neighbour of that channel.
    pub fn on_player(&mut self, action: PlayerAction, current_id: &str) -> (r: Option<Effect>)
        ensures
            ({
                let views = channel::views(old(self).channels@);
                let count = views.len() as int;
                match action {
                    PlayerAction::Back => {
                        &&& final(self).lists(views)
                        &&& *final(self) == (App { screen: final(self).screen, ..*old(self) })
                        &&& r == Some(Effect::DropProxy)
                    },
                    PlayerAction::NextChannel => {
                        &&& *final(self) == *old(self)
                        &&& match channel::position(views, current_id@, 0) {
                            Some(i) => resolves(*old(self), views[next_place(i, count)], r),
                            None => r is None,
                        }
                    },
                    PlayerAction::PrevChannel => {
                        &&& *final(self) == *old(self)
                        &&& match channel::position(views, current_id@, 0) {
                            Some(i) => resolves(*old(self), views[prev_place(i, count)], r),
                            None => r is None,
                        }
                    },
                    PlayerAction::Nothing => *final(self) == *old(self) && r is None,
                }
            }),
    {
        match action {
            PlayerAction::Back => {
                self.list_again();
                Some(Effect::DropProxy)
            },
            PlayerAction::NextChannel => match find_channel(
                self.channels.as_slice(),
                current_id,
            ) {
                None => None,
                Some(i) => {
                    let next: usize = if i < self.channels.len() - 1 {
                        i + 1
                    } else {
                        0
                    };
                    self.resolve(self.channels[next].clone())
                },
            },
            PlayerAction::PrevChannel => match find_channel(
                self.channels.as_slice(),
                current_id,
            ) {
                None => None,
                Some(i) => {
                    let prev: usize = if i == 0 {
                        self.channels.len() - 1
                    } else {
                        i - 1
                    };
                    self.resolve(self.channels[prev].clone())
                },
            },
            PlayerAction::Nothing => None,
        }
    }
}

/// Asks for the stream of a channel, where an operator is connected.
pub open spec fn resolves(app: App, channel: ChannelView, effect: Option<Effect>) -> bool {
    match effect {
        Some(e) => app.has_operator && e@ == EffectView::ResolveStream(channel),
        None => !app.has_operator,
    }
}

/// What a message leads to: the state after it, and the effects.
pub open spec fn responds(before: App, msg: AppMsg, after: App, effects: Seq<EffectView>) -> bool {
    match msg {
        AppMsg::AuthErr(e) => match before.screen {
            Screen::Setup(s) => {
                &&& after.sets_up(
                    (setup::SetupView {
                        loading: false,
                        error_message: Some("Connexion échouée : "@ + e@),
                        ..s@
                    }),
                )
                &&& after == (App { screen: after.screen, ..before })
                &&& effects == Seq::<EffectView>::empty()
            },
            Screen::PushWait(_) | Screen::Otp(_) => {
                &&& after.sets_up(setup::setup_with_error("Connexion échouée : "@ + e@))
                &&& after == (App { screen: after.screen, otp_pending: false, ..before })
                &&& effects == seq![EffectView::DropResponder]
            },
            _ => after == before && effects == Seq::<EffectView>::empty(),
        },
        AppMsg::PushAuthPending => {
            &&& after.screen matches Screen::PushWait(w)
            &&& w.elapsed == 0
            &&& after == (App { screen: after.screen, ..before })
            &&& effects == Seq::<EffectView>::empty()
        },
        AppMsg::OtpRequired => {
            &&& after.screen matches Screen::Otp(o)
            &&& o.code@ == Seq::<char>::empty()
            &&& !o.submitted
            &&& after == (App { screen: after.screen, otp_pending: true, ..before })
            &&& effects == seq![EffectView::KeepResponder]
        },
        AppMsg::ChannelsOk { channels, session_token, kind_str, username } => {
            &&& after.lists(channel::views(channels@))
            &&& after == (App {
                screen: after.screen,
                channels,
                has_operator: true,
                current_session: Some((kind_str, username)),
                ..before
            })
            &&& effects == ({
                let logos = EffectView::FetchLogos(logo_urls(channel::views(channels@)));
                match text::opt_text(session_token) {
                    Some(token) => seq![
                        EffectView::SaveSession { kind: kind_str@, username: username@, token },
                        logos,
                        EffectView::KeepOperator,
                    ],
                    None => seq![logos, EffectView::KeepOperator],
                }
            })
        },
        AppMsg::ChannelsErr(e) => match before.screen {
            Screen::Setup(s) => {
                &&& after.sets_up(
                    (setup::SetupView {
                        loading: false,
                        error_message: Some("Erreur chargement chaînes : "@ + e@),
                        ..s@
                    }),
                )
                &&& after == (App { screen: after.screen, ..before })
                &&& effects == Seq::<EffectView>::empty()
            },
            Screen::Restoring(_) => {
                &&& after.sets_up(setup::setup_with_error("Erreur chargement chaînes : "@ + e@))
                &&& after == (App { screen: after.screen, ..before })
                &&& effects == Seq::<EffectView>::empty()
            },
            _ => after == before && effects == Seq::<EffectView>::empty(),
        },
        AppMsg::StreamOk { protected } => if protected {
            after == before && effects == seq![EffectView::StartDrm]
        } else {
            match before.screen {
                Screen::Player(p) => plays(before, *p, after) && effects == seq![EffectView::Play],
                _ => after == before && effects == Seq::<EffectView>::empty(),
            }
        },
        AppMsg::DrmProxyReady { proxy_mpd_url } => match before.screen {
            Screen::Player(p) if proxy::url_parts(proxy_mpd_url@) is Some => {
                &&& plays(before, *p, after)
                &&& effects == seq![
                    EffectView::KeepProxy,
                    EffectView::PlayProxy(proxy_mpd_url@),
                ]
            },
            _ => after == before && effects == seq![EffectView::KeepProxy],
        },
        AppMsg::DrmProxyErr(_) | AppMsg::StreamErr(_) => {
            &&& after.lists(channel::views(before.channels@))
            &&& after == (App { screen: after.screen, ..before })
            &&& effects == Seq::<EffectView>::empty()
        },
        AppMsg::SessionExpired => {
            &&& after.sets_up(
                setup::setup_with_error("Session expirée. Veuillez vous reconnecter."@),
            )
            &&& after.channels@.len() == 0
            &&& after == (App {
                screen: after.screen,
                channels: after.channels,
                has_operator: false,
                current_session: None,
                ..before
            })
            &&& effects == match before.current_session {
                Some((kind, username)) => seq![
                    EffectView::ClearSession { kind: kind@, username: username@ },
                    EffectView::DropOperator,
                ],
                None => seq![EffectView::DropOperator],
            }
        },
        AppMsg::WidevineDone | AppMsg::WidevineErr(_) => after == before && effects == Seq::<
            EffectView,
        >::empty(),
    }
}

/// The player's screen begins to play, and nothing else changes.
pub open spec fn plays(before: App, p: PlayerScreen, after: App) -> bool {
    &&& after.screen matches Screen::Player(q)
    &&& *q == (PlayerScreen {
        state: crate::screens::player::PlayerState::Playing,
        info_visible: true,
        info_left: crate::screens::player::INFO_TIME,
        ..p
    })
    &&& after == (App { screen: after.screen, ..before })
}

/// Whether a saved session may be restored: the configuration names an operator and a user.
pub fn restore_candidate(kind: &str, username: &str) -> (r: bool)
    ensures
        r == (kind@.len() > 0 && username@.len() > 0),
{
    chars_of(kind).len() > 0 && chars_of(username).len() > 0
}

/// However the restoration of a session ends, its screen is left.
pub proof fn restoration_comes_to_an_end(
    before: App,
    msg: AppMsg,
    after: App,
    effects: Seq<EffectView>,
)
    requires
        responds(before, msg, after, effects),
        msg is SessionExpired || msg is ChannelsErr || msg is ChannelsOk,
    ensures
        !(after.screen is Restoring),
{
}

/// When a session has expired, its credentials are cleared, and nothing of it is kept.
pub proof fn expired_session_is_forgotten(
    before: App,
    msg: AppMsg,
    after: App,
    effects: Seq<EffectView>,
    session: (String, String),
)
    requires
        responds(before, msg, after, effects),
        msg is SessionExpired,
        before.current_session == Some(session),
    ensures
        effects.contains(
            EffectView::ClearSession { kind: session.0@, username: session.1@ },
        ),
        effects.contains(EffectView::DropOperator),
        after.current_session is None,
        !after.has_operator,
        after.channels@.len() == 0,
        after.screen is Setup,
{
    assert(effects[0] == (EffectView::ClearSession {
        kind: session.0@,
        username: session.1@,
    }));
    assert(effects[1] == EffectView::DropOperator);
}

/// A protected stream is never handed to the player as it is: only an unprotected one is,
/// and what the proxy serves.
pub proof fn protected_streams_go_through_the_proxy(
    before: App,
    msg: AppMsg,
    after: App,
    effects: Seq<EffectView>,
)
    requires
        responds(before, msg, after, effects),
    ensures
        effects.contains(EffectView::Play) ==> msg == (AppMsg::StreamOk { protected: false }),
        msg == (AppMsg::StreamOk { protected: true }) ==> effects == seq![EffectView::StartDrm],
{
    if effects.contains(EffectView::Play) {
        let k = choose|k: int| 0 <= k < effects.len() && effects[k] == EffectView::Play;
        assert(effects[k] == EffectView::Play);
    }
}

} // verus!
