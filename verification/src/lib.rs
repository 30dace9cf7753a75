//! Seeds a torrent whose pieces lie on a CDN.
//!
//! The library decides: which bytes to ask the CDN for, what to make of the answers, when to
//! try again, which pieces to announce. The program around it sends and receives.
//!
//! - [`layout`]: how a torrent is cut into pieces.
//! - [`torrent`], [`nesting`]: the layout that a torrent file gives, and how deep the file may be
//!   nested.
//! - [`storage`]: the storage that serves the pieces, read by read.
//! - [`fetch`] and [`fetch_laws`]: the request for a byte range, with its retries.
//! - [`permits`]: fetches at the same time, and the limit on their requests.
//! - [`cdn_fetch`]: the single request behind the C interface.
//! - [`seed`]: the operations of a seeding torrent.
//! - [`portmap`]: the forwarding of the peer port.
//! - [`client`], [`program`]: client settings, command line.
//! - [`http`], [`text`], [`error`]: status codes and ranges, numerals, errors.

pub mod cdn_fetch;
pub mod client;
pub mod error;
pub mod fetch;
pub mod fetch_laws;
pub mod http;
pub mod layout;
pub mod nesting;
pub mod permits;
pub mod portmap;
pub mod program;
pub mod seed;
pub mod storage;
pub mod text;
pub mod torrent;
