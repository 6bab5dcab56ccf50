use vstd::prelude::*;

use crate::config::{LinkType, target_is_authoritative};
use crate::paths::{distinct_paths, path_set};
use crate::crypto::{
    age_encrypt, is_low_order, is_low_order_recipient, recipient_of, x25519_recipient_text, age_header_accepted, age_payload, age_unlocks, encrypts_to, is_x25519_identity_text,
    is_x25519_recipient_text, open_age, parse_identity, parse_recipient, read_age_payload, trim_text, trimmed,
    unlock_age,
};

verus! {

/// Errors of the encryption helpers.
#[derive(Debug)]
pub enum EncryptionError {
    /// Encryption support is not available.
    NotEnabled,
    /// age failed to encrypt.
    EncryptionFailed(age::EncryptError),
    /// age failed to decrypt.
    DecryptionFailed(age::DecryptError),
    /// Reading failed: the identity file, or the payload of an age file
    /// while it is decrypted.
    Io(std::io::Error),
    /// No (usable) encryption key is configured.
    NoKey,
    /// A file that should hold encrypted content holds plaintext.
    UnexpectedPlaintext,
}

/// Configuration for encryption operations
#[derive(Debug, Clone, PartialEq)]
pub struct EncryptionConfig {
    /// Path to the age identity file (private key)
    pub identity_path: Option<String>,
    /// Age recipient public key
    pub recipient: Option<String>,
}

impl Default for EncryptionConfig {
    fn default() -> (r: Self)
        ensures
            r.identity_path is None,
            r.recipient is None,
    {
        EncryptionConfig { identity_path: None, recipient: None }
    }
}

/// What was found at the configured identity path: the part of decryption
/// that reads the filesystem happens before the library is asked.
#[derive(Debug)]
pub enum IdentityFile {
    /// No identity path is configured.
    NotConfigured,
    /// The identity file could not be read.
    Unreadable(std::io::Error),
    /// The text of the identity file.
    Contents(String),
}

/// Whether `encrypt_data` succeeds for this configuration: a recipient is
/// configured and it is a valid X25519 public key.
pub open spec fn has_usable_recipient(config: EncryptionConfig) -> bool {
    config.recipient matches Some(r) && is_x25519_recipient_text(r@)
}

/// What `encrypt_data` gives back: `NoKey` where no usable recipient is
/// configured; otherwise a ciphertext that every secret key of the recipient
/// decrypts back to the data.
pub open spec fn is_encryption_of(data: Seq<u8>, config: EncryptionConfig, res: Result<Vec<u8>, EncryptionError>) -> bool {
    &&& res is Ok <==> has_usable_recipient(config)
    &&& res is Err ==> (res matches Err(EncryptionError::NoKey))
    &&& res matches Ok(c) ==> (config.recipient matches Some(r) && encrypts_to(r@, data, c@))
}

/// Whether the configured recipient is a valid X25519 public key of small
/// order, to which age cannot encrypt.
pub open spec fn has_low_order_recipient(config: EncryptionConfig) -> bool {
    config.recipient matches Some(r) && is_x25519_recipient_text(r@) && is_low_order_recipient(r@)
}

/// Encrypts data using age encryption
///
/// Fails with `NoKey` when no recipient is configured or the configured one
/// is not an age X25519 public key; succeeds otherwise, with a ciphertext
/// that every secret key of the recipient decrypts back to the data. The
/// ciphertext is random (fresh file key), so its bytes are not fixed by the
/// inputs. A recipient of small order is left out: age panics on it
/// (`try_encrypt_data` tests for it first).
pub fn encrypt_data(data: &[u8], config: &EncryptionConfig) -> (res: Result<Vec<u8>, EncryptionError>)
    requires
        !has_low_order_recipient(*config),
    ensures
        is_encryption_of(data@, *config, res),
{
    let recipient = match &config.recipient {
        Some(r) => r,
        None => return Err(EncryptionError::NoKey),
    };
    let recipient = match parse_recipient(recipient.as_str()) {
        Some(r) => r,
        None => return Err(EncryptionError::NoKey),
    };
    match age_encrypt(&recipient, data) {
        Ok(encrypted) => Ok(encrypted),
        Err(e) => Err(EncryptionError::EncryptionFailed(e)),
    }
}

/// Encrypts data as `encrypt_data` does, after testing that the configured
/// recipient is not of small order: for such a recipient nothing is
/// encrypted and the result is `None`.
pub fn try_encrypt_data(data: &[u8], config: &EncryptionConfig) -> (r: Option<Result<Vec<u8>, EncryptionError>>)
    ensures
        r is None <==> has_low_order_recipient(*config),
        r matches Some(res) ==> is_encryption_of(data@, *config, res),
{
    if let Some(text) = &config.recipient {
        if let Some(recipient) = parse_recipient(text.as_str()) {
            if is_low_order(&recipient) {
                return None;
            }
        }
    }
    Some(encrypt_data(data, config))
}

/// The public key, written out, of the secret key that an identity file
/// holds (up to surrounding white space); `None` where it holds none. Data
/// encrypted to this recipient decrypts with that identity file.
pub fn recipient_for_identity(identity_contents: &str) -> (r: Option<String>)
    ensures
        r is Some <==> is_x25519_identity_text(identity_text(identity_contents@)),
        r matches Some(recipient) ==> recipient@ == x25519_recipient_text(identity_text(identity_contents@)),
{
    match parse_identity(trim_text(identity_contents)) {
        Some(identity) => Some(recipient_of(&identity)),
        None => None,
    }
}

/// The identity text that decryption uses: the file's contents with the
/// surrounding white space removed.
pub open spec fn identity_text(contents: Seq<char>) -> Seq<char> {
    trimmed(contents)
}

/// Decrypts data using age encryption
///
/// `identity` is what was found at the configured identity path. No identity
/// configured, or one that is not an age X25519 secret key, is `NoKey`; an
/// unreadable file is `Io` with the read error. Otherwise the data is
/// decrypted with that key: data that is not an age file, or that the key does
/// not unlock, is `DecryptionFailed`; a payload that fails to decrypt while it
/// is read is `Io`; else the result is the plaintext.
pub fn decrypt_data(encrypted_data: &[u8], identity: IdentityFile) -> (res: Result<Vec<u8>, EncryptionError>)
    ensures
        identity is NotConfigured ==> res matches Err(EncryptionError::NoKey),
        identity matches IdentityFile::Unreadable(e) ==> res == Err::<Vec<u8>, EncryptionError>(EncryptionError::Io(e)),
        identity matches IdentityFile::Contents(text) ==> {
            let key = identity_text(text@);
            let c = encrypted_data@;
            &&& !is_x25519_identity_text(key) ==> (res matches Err(EncryptionError::NoKey))
            &&& is_x25519_identity_text(key) && !age_header_accepted(c) ==> (res matches Err(EncryptionError::DecryptionFailed(_)))
            &&& is_x25519_identity_text(key) && age_header_accepted(c) && !age_unlocks(key, c) ==> (res matches Err(EncryptionError::DecryptionFailed(_)))
            &&& is_x25519_identity_text(key) && age_header_accepted(c) && age_unlocks(key, c) ==> match age_payload(key, c) {
                Some(plain) => (res matches Ok(out) && out@ == plain),
                None => (res matches Err(EncryptionError::Io(_))),
            }
        },
{
    let contents = match identity {
        IdentityFile::NotConfigured => return Err(EncryptionError::NoKey),
        IdentityFile::Unreadable(e) => return Err(EncryptionError::Io(e)),
        IdentityFile::Contents(text) => text,
    };
    let key = match parse_identity(trim_text(contents.as_str())) {
        Some(k) => k,
        None => return Err(EncryptionError::NoKey),
    };
    let decryptor = match open_age(encrypted_data) {
        Ok(d) => d,
        Err(e) => return Err(EncryptionError::DecryptionFailed(e)),
    };
    let payload = match unlock_age(decryptor, &key) {
        Ok(p) => p,
        Err(e) => return Err(EncryptionError::DecryptionFailed(e)),
    };
    match read_age_payload(payload) {
        Ok(decrypted) => Ok(decrypted),
        Err(e) => Err(EncryptionError::Io(e)),
    }
}

/// Direction for file synchronization
#[derive(Clone, Copy, Debug, PartialEq, Eq, Structural)]
pub enum SyncDirection {
    /// Create both files as empty
    CreateBoth,
    /// Synchronize from source to target
    SourceToTarget,
    /// Synchronize from target to source
    TargetToSource,
}

/// The direction in which a dotfile and its target are synchronised.
pub open spec fn sync_direction(source_exists: bool, target_exists: bool, link_type: LinkType) -> SyncDirection {
    if !source_exists && !target_exists {
        SyncDirection::CreateBoth
    } else if !source_exists {
        SyncDirection::TargetToSource
    } else if !target_exists {
        SyncDirection::SourceToTarget
    } else if target_is_authoritative(link_type) {
        SyncDirection::TargetToSource
    } else {
        SyncDirection::SourceToTarget
    }
}

/// Determines synchronization direction based on file existence and link type
pub fn determine_sync_direction(source_exists: bool, target_exists: bool, link_type: &LinkType) -> (r: SyncDirection)
    ensures
        r == sync_direction(source_exists, target_exists, *link_type),
{
    match (source_exists, target_exists) {
        (false, false) => SyncDirection::CreateBoth,
        (false, true) => SyncDirection::TargetToSource,
        (true, false) => SyncDirection::SourceToTarget,
        (true, true) => match link_type {
            LinkType::Symbolic | LinkType::Hard | LinkType::Copy => SyncDirection::SourceToTarget,
            LinkType::Record | LinkType::Encrypted => SyncDirection::TargetToSource,
        },
    }
}

/// Enhanced link configuration that includes link type override
#[derive(Debug, Clone, PartialEq, Eq)]
pub struct LinkConfig {
    /// Target paths for the link
    pub targets: Vec<String>,
    /// Link type override (overrides global link_type from config)
    pub link_type: Option<LinkType>,
}

/// What a link configuration means: a set of target paths and an optional
/// link type override.
#[verifier::ext_equal]
pub struct LinkSpec {
    pub targets: Set<Seq<char>>,
    pub link_type: Option<LinkType>,
}

impl View for LinkConfig {
    type V = LinkSpec;

    open spec fn view(&self) -> LinkSpec {
        LinkSpec { targets: path_set(self.targets@), link_type: self.link_type }
    }
}

impl Default for LinkConfig {
    fn default() -> (r: Self)
        ensures
            r.targets@.len() == 0,
            r.link_type is None,
    {
        LinkConfig { targets: Vec::new(), link_type: None }
    }
}

impl LinkConfig {
    /// No target occurs twice.
    pub open spec fn wf(&self) -> bool {
        distinct_paths(self.targets@)
    }

    /// The link type that applies to this link: its own override, or else the
    /// global one.
    pub fn effective_link_type(&self, global: &LinkType) -> (r: LinkType)
        ensures
            r == match self.link_type {
                Some(t) => t,
                None => *global,
            },
    {
        match self.link_type {
            Some(t) => t,
            None => *global,
        }
    }
}

} // verus!
