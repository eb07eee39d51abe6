//! An index of the videos that youtube-dl downloaded with `--write-info-json`
//! and `--write-thumbnail`: every `.info.json` sidecar of a directory, parsed,
//! together with the base path that its video and thumbnail share.

pub mod info_json;
pub mod scrape;
pub mod sidecar;

pub use crate::info_json::{InfoJson, InfoJsonError};
pub use crate::scrape::{read_sidecar, ScrapeError, Scraper, Step};
pub use crate::sidecar::{has_extension, Sidecar};
