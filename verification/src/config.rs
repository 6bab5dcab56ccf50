use vstd::prelude::*;

use crate::encryption::EncryptionConfig;

verus! {

/// How a dotfile is put in place at its target.
#[derive(Clone, Copy, Debug, PartialEq, Eq, Structural)]
pub enum LinkType {
    /// A symbolic link to the file in the dotfiles repository (the default).
    Symbolic,
    /// A hard link to the file in the dotfiles repository.
    Hard,
    /// A copy of the file in the dotfiles repository.
    Copy,
    /// A copy whose changes at the target are recorded back into the repository.
    Record,
    /// A copy that is kept encrypted in the repository.
    Encrypted,
}

/// The link types that create a filesystem link instead of copying content.
pub open spec fn is_link_kind(t: LinkType) -> bool {
    t == LinkType::Symbolic || t == LinkType::Hard
}

/// The link types whose target is the authoritative copy once both sides exist.
pub open spec fn target_is_authoritative(t: LinkType) -> bool {
    t == LinkType::Record || t == LinkType::Encrypted
}

/// The settings of rotz that linking reads.
#[derive(Debug, Clone)]
pub struct Config {
    /// The dotfiles repository.
    pub dotfiles: String,
    /// The link type used where a link does not override it.
    pub link_type: LinkType,
    /// The encryption settings.
    pub encryption: EncryptionConfig,
}

} // verus!
