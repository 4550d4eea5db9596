//! The decision logic of the weecord WeeChat plugin: parsing of the
//! `/discord`, `/nick` and `/query` commands, the plugin's messages and
//! return codes, and the small number and string routines they rest on.
//! Everything that talks to WeeChat or Discord lives outside this crate;
//! it hands the library plain values and performs the actions it returns.

pub mod text;
pub mod number;
pub mod command;
pub mod hooks;
pub mod plugin;
pub mod laws;
