//! Finds the nations of a region that exceed an endorsement cap and works out
//! which of them every other nation of the region endorses.
//!
//! The library makes no request and reads no clock. It decides: how far
//! apart requests must be ([`rate`]), which page of the ranked census to read
//! next and which nations to keep from it ([`scan`]), and what each member
//! of the region endorses among the nations kept ([`resolve`]). The caller
//! does the reading and hands over what came back.

pub mod census;
pub mod config;
pub mod error;
pub mod names;
pub mod rate;
pub mod resolve;
pub mod resolve_laws;
pub mod scan;
pub mod scan_laws;
pub mod violators;
