//! The picture of a channel over the whole window.

use crate::channel::Channel;
use crate::text;
use vstd::prelude::*;

verus! {

/// How long the information on the channel is shown.
pub const INFO_TIME: u64 = 3_000_000_000;

/// Whether the stream of the channel is known.
#[derive(Debug, Clone, Copy, PartialEq, Eq, Structural)]
pub enum PlayerState {
    Loading,
    Playing,
}

/// The channel shown, and what is shown over it.
#[derive(Debug)]
pub struct PlayerScreen {
    pub channel: Channel,
    pub state: PlayerState,
    pub info_visible: bool,
    /// How long the information is still shown.
    pub info_left: u64,
    pub fullscreen: bool,
}

/// What the screen asks for.
#[derive(Debug, PartialEq, Eq)]
pub enum PlayerAction {
    Nothing,
    Back,
    NextChannel,
    PrevChannel,
}

/// The keys pressed since the last step.
#[derive(Debug, Default, Clone, Copy, PartialEq, Eq)]
pub struct PlayerKeys {
    /// The escape or the backspace key.
    pub back: bool,
    pub right: bool,
    pub left: bool,
    pub enter: bool,
    /// The key that switches to and from the full screen.
    pub fullscreen: bool,
}

impl PlayerScreen {
    /// A screen that waits for the stream of a channel.
    pub fn new(channel: Channel) -> (r: Self)
        ensures
            r == (PlayerScreen {
                channel,
                state: PlayerState::Loading,
                info_visible: false,
                info_left: 0,
                fullscreen: false,
            }),
    {
        PlayerScreen {
            channel,
            state: PlayerState::Loading,
            info_visible: false,
            info_left: 0,
            fullscreen: false,
        }
    }

    /// The identifier of the channel shown.
    pub fn channel_id(&self) -> (r: &str)
        ensures
            r@ == self.channel@.id,
    {
        self.channel.id.as_str()
    }

    /// Shows another channel, whose stream is waited for.
    pub fn switch_channel(&mut self, channel: Channel)
        ensures
            *final(self) == (PlayerScreen {
                channel,
                state: PlayerState::Loading,
                ..*old(self)
            }),
    {
        self.channel = channel;
        self.state = PlayerState::Loading;
    }

    /// The stream is known: it plays, with information on the channel over it.
    pub fn start_playing(&mut self)
        ensures
            *final(self) == (PlayerScreen {
                state: PlayerState::Playing,
                info_visible: true,
                info_left: INFO_TIME,
                ..*old(self)
            }),
    {
        self.state = PlayerState::Playing;
        self.info_visible = true;
        self.info_left = INFO_TIME;
    }

    /// Whether there is a picture to draw.
    pub fn has_frame(&self) -> (r: bool)
        ensures
            r == (self.state is Playing),
    {
        self.state == PlayerState::Playing
    }

    /// What is shown while the stream is waited for.
    pub fn loading_text(&self) -> (r: String)
        ensures
            r@ == "Chargement de "@ + self.channel@.name + "…"@,
    {
        let front = text::joined("Chargement de ", self.channel.name.as_str());
        text::joined(front.as_str(), "…")
    }

    /// One step of the screen, `dt` after the last one. Leaving goes before changing the
    /// channel; the information goes when its time is over.
    pub fn show(&mut self, keys: PlayerKeys, dt: u64) -> (r: PlayerAction)
        ensures
            r == (if keys.back {
                PlayerAction::Back
            } else if keys.right {
                PlayerAction::NextChannel
            } else if keys.left {
                PlayerAction::PrevChannel
            } else {
                PlayerAction::Nothing
            }),
            ({
                let shown = old(self).info_visible != keys.enter;
                let left: int = if keys.enter {
                    INFO_TIME as int
                } else {
                    old(self).info_left as int
                };
                let after: int = if !shown {
                    left
                } else if left > dt {
                    left - dt
                } else {
                    0
                };
                *final(self) == (PlayerScreen {
                    fullscreen: old(self).fullscreen != keys.fullscreen,
                    info_visible: shown && after > 0,
                    info_left: after as u64,
                    ..*old(self)
                })
            }),
    {
        if keys.fullscreen {
            self.fullscreen = !self.fullscreen;
        }
        if keys.enter {
            self.info_visible = !self.info_visible;
            self.info_left = INFO_TIME;
        }
        if self.info_visible {
            self.info_left = self.info_left.saturating_sub(dt);
            if self.info_left == 0 {
                self.info_visible = false;
            }
        }
        if keys.back {
            PlayerAction::Back
        } else if keys.right {
            PlayerAction::NextChannel
        } else if keys.left {
            PlayerAction::PrevChannel
        } else {
            PlayerAction::Nothing
        }
    }
}

} // verus!
