//! Live TV playlist handling for the Nola media client: an M3U reader with a
//! precise model of the accepted syntax, the bookkeeping of playlist sources
//! and their channels, and the small decision procedures of the player shell
//! (magnet de-duplication, tracker choice, mpv option parsing).

pub mod text;
pub mod weburl;
pub mod attributes;
pub mod model;
pub mod playlist;
pub mod store;
pub mod search;
pub mod player;
