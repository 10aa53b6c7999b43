//! The logic behind a desktop switch for Codex providers.
//!
//! - [`aggregate`] merges the model catalogs of several relays and routes requests to them.
//! - [`transform_codex_responses_third_party`] rewrites requests for providers that do not know
//!   the synthetic input items of Codex.
//! - [`codex_desktop`], [`cdp_session`] and [`desktop_discovery`] find Codex Desktop, start it
//!   and talk to its pages.
//! - [`codex_desktop_patches`] and [`unlock_script`] make its pages offer every reasoning effort.
//! - [`provider`], [`json`], [`text`] and [`toml`] are what these are made of.
//! - The modules whose names end in `_laws` state what holds of all this, over the members of
//!   documents, the characters of texts and the fields of what was learned.
//!
//! Every function states in its contract what it returns. What waits, reads or writes is the
//! caller's: where decisions and outside work take turns, a function whose name ends in `_step`
//! says what is to be done next, given what has been learned so far.

pub mod aggregate;
pub mod aggregate_laws;
pub mod cdp_session;
pub mod codex_desktop;
pub mod codex_desktop_patches;
pub mod desktop_discovery;
pub mod desktop_laws;
pub mod discovery_laws;
pub mod json;
pub mod json_laws;
pub mod patches_laws;
pub mod provider;
pub mod session_laws;
pub mod text;
pub mod text_laws;
pub mod toml;
pub mod transform_codex_responses_third_party;
pub mod transform_laws;
pub mod unlock_script;
pub mod view_laws;
