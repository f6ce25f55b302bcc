//! The identifier-resolution and subtitle-aggregation core of a
//! closed-caption downloader.
//!
//! The library turns a video's numeric id into its public encoded form
//! (`codec`), reads the identity embedded in an episode or video page
//! (`extract`, over the JSON reader in `json` and `jsonread`), decodes the
//! remote payloads — subtitle tracks, video pages, season episodes
//! (`payload`) — narrows pages and episodes by selectors (`selector`), and
//! folds per-track results into caption tracks with partial-failure
//! tolerance (`aggregate`, `subtitle`). Transport, files and the serializers
//! live outside the library, at its edges.

pub mod aggregate;
pub mod codec;
pub mod errors;
pub mod extract;
pub mod format;
pub mod json;
pub mod jsonread;
pub mod num;
pub mod payload;
pub mod selector;
pub mod subtitle;
mod textops;
mod web;

pub use codec::av_to_bv;
