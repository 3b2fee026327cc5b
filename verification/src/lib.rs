//! The rules of a television viewer: how protected streams are served in clear form, which
//! screen is shown, and what the guide, the previews and the players do.

pub mod app;
pub mod audio_laws;
pub mod auth;
pub mod bytes;
pub mod capture_flow;
pub mod cdm;
pub mod channel;
pub mod drm_startup;
pub mod fetch_laws;
pub mod fmp4;
pub mod guide;
pub mod license;
pub mod license_laws;
pub mod manifest_laws;
pub mod mpd;
pub mod mpd_laws;
pub mod number_laws;
pub mod numbers;
pub mod player_control;
pub mod preview;
pub mod preview_capture;
pub mod proxy;
pub mod proxy_laws;
pub mod proxy_state;
pub mod request_laws;
pub mod screen_laws;
pub mod screens;
pub mod segment_flow;
pub mod startup_laws;
pub mod text;
pub mod text_laws;
pub mod text_map;
pub mod widevine;
pub mod xml;
