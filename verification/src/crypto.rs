//! The age primitives used by the encryption helpers, with the contracts
//! that the rest of the library relies on.

use vstd::prelude::*;

verus! {

/// I/O errors, carried through unchanged.
#[verifier::external_type_specification]
#[verifier::external_body]
pub struct ExIoError(std::io::Error);

/// age's encryption error.
#[verifier::external_type_specification]
#[verifier::external_body]
pub struct ExEncryptError(age::EncryptError);

/// age's decryption error.
#[verifier::external_type_specification]
#[verifier::external_body]
pub struct ExDecryptError(age::DecryptError);

/// An age X25519 public key.
#[verifier::external_type_specification]
#[verifier::external_body]
pub struct ExRecipient(age::x25519::Recipient);

/// An age X25519 secret key.
#[verifier::external_type_specification]
#[verifier::external_body]
pub struct ExIdentity(age::x25519::Identity);

/// `age::Decryptor`: an age file whose header has been read.
#[verifier::external_type_specification]
#[verifier::external_body]
#[verifier::reject_recursive_types(R)]
pub struct ExDecryptor<R>(age::Decryptor<R>);

/// `age::stream::StreamReader`: the reader that yields an age file's plaintext.
#[verifier::external_type_specification]
#[verifier::external_body]
#[verifier::reject_recursive_types(R)]
pub struct ExStreamReader<R>(age::stream::StreamReader<R>);

/// Whether `age::x25519::Recipient::from_str` accepts the text (a Bech32
/// `age1...` public key).
pub uninterp spec fn is_x25519_recipient_text(text: Seq<char>) -> bool;

/// Whether `age::x25519::Identity::from_str` accepts the text (a Bech32
/// `AGE-SECRET-KEY-1...` secret key).
pub uninterp spec fn is_x25519_identity_text(text: Seq<char>) -> bool;

/// The public key of the secret key written as `identity_text`, as text:
/// what `Identity::to_public` gives, written out by its `Display`.
pub uninterp spec fn x25519_recipient_text(identity_text: Seq<char>) -> Seq<char>;

/// The recipient parsed from `text`, written out again by its `Display`: the
/// lowercase Bech32 form of its 32 key bytes.
pub uninterp spec fn x25519_recipient_display(text: Seq<char>) -> Seq<char>;

/// The recipients, written out by their `Display`, whose X25519 point has small
/// order: the u-coordinates 0, 1, the two points of order 8, p - 1, p and
/// p + 1, each with the unused top bit clear and set. X25519 with such a point
/// gives the all-zero shared secret whatever the (clamped) secret scalar, and
/// only with such a point.
pub open spec fn low_order_recipients() -> Seq<Seq<char>> {
    seq![
        "age1qqqqqqqqqqqqqqqqqqqqqqqqqqqqqqqqqqqqqqqqqqqqqqqqqqqq5cu47z"@,
        "age1qqqqqqqqqqqqqqqqqqqqqqqqqqqqqqqqqqqqqqqqqqqqqqqqqzqqsuwj9m"@,
        "age1qyqqqqqqqqqqqqqqqqqqqqqqqqqqqqqqqqqqqqqqqqqqqqqqqqqqj7vrya"@,
        "age1qyqqqqqqqqqqqqqqqqqqqqqqqqqqqqqqqqqqqqqqqqqqqqqqqzqqk67yly"@,
        "age1ur4h5lpmgxu2u9jku0a0r87ydtdqnr0tnsetrlvxvgz3vh6fhqqqzyt4v9"@,
        "age1ur4h5lpmgxu2u9jku0a0r87ydtdqnr0tnsetrlvxvgz3vh6fhzqqxqejhu"@,
        "age1t7wft09r2zxzfvwsk92eeql0tvzyghxytqwgapkcyf8dm5ylz9ts6wm9s8"@,
        "age1t7wft09r2zxzfvwsk92eeql0tvzyghxytqwgapkcyf8dm5ylz8ts72fzt7"@,
        "age1anlllllllllllllllllllllllllllllllllllllllllllllllals4n2t7m"@,
        "age1anllllllllllllllllllllllllllllllllllllllllllllllllls3hcv9z"@,
        "age1ahlllllllllllllllllllllllllllllllllllllllllllllllalsn46ayy"@,
        "age1ahlllllllllllllllllllllllllllllllllllllllllllllllllsh3g6la"@,
        "age1amlllllllllllllllllllllllllllllllllllllllllllllllalselrwrv"@,
        "age1amlllllllllllllllllllllllllllllllllllllllllllllllllsam3fc4"@,
    ]
}

/// Whether the recipient parsed from `text` is a small-order point, for which
/// age refuses to encrypt (it panics on the all-zero shared secret).
pub open spec fn is_low_order_recipient(text: Seq<char>) -> bool {
    low_order_recipients().contains(x25519_recipient_display(text))
}

/// Whether `age::Decryptor::new` accepts the bytes: they start with a valid
/// age header and payload nonce.
pub uninterp spec fn age_header_accepted(ciphertext: Seq<u8>) -> bool;

/// Whether `Decryptor::decrypt` unlocks the file with the secret key written
/// as `identity_text` (the key opens one of the header's stanzas and the
/// header's MAC checks).
pub uninterp spec fn age_unlocks(identity_text: Seq<char>, ciphertext: Seq<u8>) -> bool;

/// What reading the unlocked file to its end gives: the plaintext, or `None`
/// where the payload does not decrypt (a chunk fails its authentication or
/// the file is truncated).
pub uninterp spec fn age_payload(identity_text: Seq<char>, ciphertext: Seq<u8>) -> Option<Seq<u8>>;

/// What decrypting the bytes with the secret key written as `identity_text`
/// gives: the plaintext, or `None` where any stage fails.
pub open spec fn age_decryption(identity_text: Seq<char>, ciphertext: Seq<u8>) -> Option<Seq<u8>> {
    if age_header_accepted(ciphertext) && age_unlocks(identity_text, ciphertext) {
        age_payload(identity_text, ciphertext)
    } else {
        None
    }
}

/// The ciphertext carries the plaintext to the recipient written as
/// `recipient_text`: every secret key whose public key is that recipient
/// decrypts it to the plaintext.
pub open spec fn encrypts_to(recipient_text: Seq<char>, plaintext: Seq<u8>, ciphertext: Seq<u8>) -> bool {
    forall|identity: Seq<char>|
        is_x25519_identity_text(identity) && #[trigger] x25519_recipient_text(identity) == recipient_text
            ==> age_decryption(identity, ciphertext) == Some(plaintext)
}

/// A parsed X25519 public key together with the text it was parsed from.
pub struct AgeRecipient {
    text: String,
    key: age::x25519::Recipient,
}

impl AgeRecipient {
    /// The text that the key was parsed from.
    pub closed spec fn text(&self) -> Seq<char> {
        self.text@
    }
}

/// A parsed X25519 secret key together with the text it was parsed from.
pub struct AgeIdentity {
    text: String,
    key: age::x25519::Identity,
}

impl AgeIdentity {
    /// The text that the key was parsed from.
    pub closed spec fn text(&self) -> Seq<char> {
        self.text@
    }
}

/// An age file whose header was read, with the bytes it was read from.
pub struct AgeDecryptor<'a> {
    ciphertext: Ghost<Seq<u8>>,
    inner: age::Decryptor<&'a [u8]>,
}

impl<'a> AgeDecryptor<'a> {
    /// The bytes of the file.
    pub closed spec fn ciphertext(&self) -> Seq<u8> {
        self.ciphertext@
    }
}

/// An unlocked age file, with its bytes and the key that unlocked it.
pub struct AgePayload<'a> {
    identity: Ghost<Seq<char>>,
    ciphertext: Ghost<Seq<u8>>,
    inner: age::stream::StreamReader<&'a [u8]>,
}

impl<'a> AgePayload<'a> {
    /// The text of the key that unlocked the file.
    pub closed spec fn identity(&self) -> Seq<char> {
        self.identity@
    }

    /// The bytes of the file.
    pub closed spec fn ciphertext(&self) -> Seq<u8> {
        self.ciphertext@
    }
}

/// Whether the character has the Unicode property White_Space, which is what
/// `str::trim` removes.
pub open spec fn is_white_space(c: char) -> bool {
    let n = c as u32;
    ||| 0x09 <= n <= 0x0d
    ||| n == 0x20
    ||| n == 0x85
    ||| n == 0xa0
    ||| n == 0x1680
    ||| 0x2000 <= n <= 0x200a
    ||| n == 0x2028
    ||| n == 0x2029
    ||| n == 0x202f
    ||| n == 0x205f
    ||| n == 0x3000
}

/// The text without its leading white space.
pub open spec fn trimmed_start(text: Seq<char>) -> Seq<char>
    decreases text.len(),
{
    if text.len() > 0 && is_white_space(text[0]) {
        trimmed_start(text.drop_first())
    } else {
        text
    }
}

/// The text without its trailing white space.
pub open spec fn trimmed_end(text: Seq<char>) -> Seq<char>
    decreases text.len(),
{
    if text.len() > 0 && is_white_space(text.last()) {
        trimmed_end(text.drop_last())
    } else {
        text
    }
}

/// The text without its leading and trailing white space.
pub open spec fn trimmed(text: Seq<char>) -> Seq<char> {
    trimmed_end(trimmed_start(text))
}

/// Calls `str::trim`. Claimed, as std documents it: the result is the input
/// without its leading and trailing White_Space characters.
#[verifier::external_body]
pub(crate) fn trim_text(text: &str) -> (res: &str)
    ensures
        res@ == trimmed(text@),
{
    text.trim()
}

/// Calls `<age::x25519::Recipient as FromStr>::from_str`. Claimed: it succeeds
/// exactly on the texts that `is_x25519_recipient_text` names (parsing depends
/// on the text alone), and the key that comes back remembers its text.
#[verifier::external_body]
pub(crate) fn parse_recipient(text: &str) -> (res: Option<AgeRecipient>)
    ensures
        res is Some <==> is_x25519_recipient_text(text@),
        res matches Some(recipient) ==> recipient.text() == text@,
{
    match text.parse::<age::x25519::Recipient>() {
        Ok(key) => Some(AgeRecipient { text: text.to_string(), key }),
        Err(_) => None,
    }
}

/// Calls `<age::x25519::Identity as FromStr>::from_str`. Claimed: it succeeds
/// exactly on the texts that `is_x25519_identity_text` names, and the key that
/// comes back remembers the text it was parsed from.
#[verifier::external_body]
pub(crate) fn parse_identity(text: &str) -> (res: Option<AgeIdentity>)
    ensures
        res is Some <==> is_x25519_identity_text(text@),
        res matches Some(identity) ==> identity.text() == text@,
{
    match text.parse::<age::x25519::Identity>() {
        Ok(key) => Some(AgeIdentity { text: text.to_string(), key }),
        Err(_) => None,
    }
}

/// Calls `<age::x25519::Recipient as Display>::fmt` (through `to_string`).
/// Claimed: the text depends on the recipient's text alone, and is named
/// `x25519_recipient_display`.
#[verifier::external_body]
pub(crate) fn recipient_display(recipient: &AgeRecipient) -> (res: String)
    ensures
        res@ == x25519_recipient_display(recipient.text()),
{
    recipient.key.to_string()
}

/// The recipients of small order, written out (see `low_order_recipients`).
fn low_order_recipient_list() -> (r: Vec<String>)
    ensures
        r@.map_values(|t: String| t@) == low_order_recipients(),
{
    let r = vec![
        String::from_str("age1qqqqqqqqqqqqqqqqqqqqqqqqqqqqqqqqqqqqqqqqqqqqqqqqqqqq5cu47z"),
        String::from_str("age1qqqqqqqqqqqqqqqqqqqqqqqqqqqqqqqqqqqqqqqqqqqqqqqqqzqqsuwj9m"),
        String::from_str("age1qyqqqqqqqqqqqqqqqqqqqqqqqqqqqqqqqqqqqqqqqqqqqqqqqqqqj7vrya"),
        String::from_str("age1qyqqqqqqqqqqqqqqqqqqqqqqqqqqqqqqqqqqqqqqqqqqqqqqqzqqk67yly"),
        String::from_str("age1ur4h5lpmgxu2u9jku0a0r87ydtdqnr0tnsetrlvxvgz3vh6fhqqqzyt4v9"),
        String::from_str("age1ur4h5lpmgxu2u9jku0a0r87ydtdqnr0tnsetrlvxvgz3vh6fhzqqxqejhu"),
        String::from_str("age1t7wft09r2zxzfvwsk92eeql0tvzyghxytqwgapkcyf8dm5ylz9ts6wm9s8"),
        String::from_str("age1t7wft09r2zxzfvwsk92eeql0tvzyghxytqwgapkcyf8dm5ylz8ts72fzt7"),
        String::from_str("age1anlllllllllllllllllllllllllllllllllllllllllllllllals4n2t7m"),
        String::from_str("age1anllllllllllllllllllllllllllllllllllllllllllllllllls3hcv9z"),
        String::from_str("age1ahlllllllllllllllllllllllllllllllllllllllllllllllalsn46ayy"),
        String::from_str("age1ahlllllllllllllllllllllllllllllllllllllllllllllllllsh3g6la"),
        String::from_str("age1amlllllllllllllllllllllllllllllllllllllllllllllllalselrwrv"),
        String::from_str("age1amlllllllllllllllllllllllllllllllllllllllllllllllllsam3fc4"),
    ];
    assert(r@.map_values(|t: String| t@) =~= low_order_recipients());
    r
}

/// Whether the recipient is a small-order point, for which age refuses to
/// encrypt.
pub(crate) fn is_low_order(recipient: &AgeRecipient) -> (r: bool)
    ensures
        r == is_low_order_recipient(recipient.text()),
{
    let display = recipient_display(recipient);
    let list = low_order_recipient_list();
    let ghost views = list@.map_values(|t: String| t@);
    let mut i: usize = 0;
    while i < list.len()
        invariant
            i <= list@.len(),
            views == list@.map_values(|t: String| t@),
            views == low_order_recipients(),
            display@ == x25519_recipient_display(recipient.text()),
            forall|j: int| 0 <= j < i ==> views[j] != display@,
        decreases list.len() - i,
    {
        if list[i] == display {
            assert(views[i as int] == display@);
            return true;
        }
        i = i + 1;
    }
    false
}

/// Calls `age::encrypt` with one X25519 recipient that is not of small order.
/// Claimed: it succeeds (with a single X25519 recipient
/// `Encryptor::with_recipients` cannot fail, the shared secret is not all zero
/// for a point that is not of small order, so `wrap_file_key` does not panic,
/// and the output goes to a `Vec`, which cannot fail), and what comes back
/// decrypts to the plaintext under every secret key whose public key is the
/// recipient. The ciphertext's bytes depend on a fresh random file key and
/// ephemeral key; nothing more is stated of them. A failing OS random number
/// generator makes age panic; nothing here can rule that out.
#[verifier::external_body]
pub(crate) fn age_encrypt(recipient: &AgeRecipient, plaintext: &[u8]) -> (res: Result<Vec<u8>, age::EncryptError>)
    requires
        !is_low_order_recipient(recipient.text()),
    ensures
        res is Ok,
        res matches Ok(c) ==> forall|identity: Seq<char>|
            is_x25519_identity_text(identity) && #[trigger] x25519_recipient_text(identity) == recipient.text()
                ==> age_decryption(identity, c@) == Some(plaintext@),
{
    age::encrypt(&recipient.key, plaintext)
}

/// Calls `Identity::to_public` and writes the public key out by its
/// `Display`. Claimed: the text depends on the secret key's text alone, and is
/// named `x25519_recipient_text`.
#[verifier::external_body]
pub(crate) fn recipient_of(identity: &AgeIdentity) -> (res: String)
    ensures
        res@ == x25519_recipient_text(identity.text()),
{
    identity.key.to_public().to_string()
}

/// Calls `age::Decryptor::new` on the bytes. Claimed: it succeeds exactly
/// where `age_header_accepted` says (the header is read from the bytes alone).
#[verifier::external_body]
pub(crate) fn open_age<'a>(ciphertext: &'a [u8]) -> (res: Result<AgeDecryptor<'a>, age::DecryptError>)
    ensures
        res is Ok <==> age_header_accepted(ciphertext@),
        res matches Ok(d) ==> d.ciphertext() == ciphertext@,
{
    match age::Decryptor::new(ciphertext) {
        Ok(inner) => Ok(AgeDecryptor { ciphertext: Ghost(ciphertext@), inner }),
        Err(e) => Err(e),
    }
}

/// Calls `Decryptor::decrypt` with the one identity. Claimed: it succeeds
/// exactly where `age_unlocks` says for the key's text and the file's bytes.
#[verifier::external_body]
pub(crate) fn unlock_age<'a>(decryptor: AgeDecryptor<'a>, identity: &AgeIdentity) -> (res: Result<AgePayload<'a>, age::DecryptError>)
    ensures
        res is Ok <==> age_unlocks(identity.text(), decryptor.ciphertext()),
        res matches Ok(p) ==> p.identity() == identity.text() && p.ciphertext() == decryptor.ciphertext(),
{
    let ghost bytes = decryptor.ciphertext@;
    match decryptor.inner.decrypt(std::iter::once(&identity.key as &dyn age::Identity)) {
        Ok(inner) => Ok(AgePayload { identity: Ghost(identity.text@), ciphertext: Ghost(bytes), inner }),
        Err(e) => Err(e),
    }
}

/// Calls `Read::read_to_end` on the unlocked file. Claimed: it succeeds
/// exactly where `age_payload` gives a plaintext, and then gives that
/// plaintext.
#[verifier::external_body]
pub(crate) fn read_age_payload(payload: AgePayload) -> (res: Result<Vec<u8>, std::io::Error>)
    ensures
        res is Ok <==> age_payload(payload.identity(), payload.ciphertext()) is Some,
        res matches Ok(plain) ==> age_payload(payload.identity(), payload.ciphertext()) == Some(plain@),
{
    let mut reader = payload.inner;
    let mut plain = Vec::new();
    match std::io::Read::read_to_end(&mut reader, &mut plain) {
        Ok(_) => Ok(plain),
        Err(e) => Err(e),
    }
}

} // verus!
