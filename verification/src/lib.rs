//! Decision logic of the `rotz link` command: how dotfiles are synchronised
//! between the dotfiles repository and their targets, how link
//! configurations are merged, and the encryption helpers used for the
//! `encrypted` link type.

pub mod config;
pub mod encryption;
pub mod crypto;
pub mod paths;
pub mod assoc;
pub mod capabilities;
pub mod link;
pub mod laws;
pub mod capability_laws;
pub mod link_laws;
