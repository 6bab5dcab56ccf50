//! The decisions of `rotz link`: how each dotfile is synchronised and
//! linked, which old links are orphaned, and what is recorded as linked.
//! The filesystem work itself is done by the caller, which reports back
//! what happened.

use vstd::prelude::*;

use crate::assoc::{
    distinct_keys, entries_view, find_key, has_distinct_keys, lemma_entries_view_dom, lemma_entries_view_value, set_entry,
};
use crate::capabilities::Links;
use crate::config::{Config, LinkType, is_link_kind};
use crate::crypto::{age_header_accepted, age_payload, age_unlocks, is_x25519_identity_text};
use crate::encryption::{
    EncryptionError, IdentityFile, LinkConfig, SyncDirection, decrypt_data, determine_sync_direction, identity_text,
    sync_direction,
};
use crate::paths::{contains_path, extend_paths, path_set};

verus! {

/// The header that starts an ASCII-armored age file:
/// `-----BEGIN AGE ENCRYPTED FILE-----`.
pub open spec fn age_armor_header() -> Seq<u8> {
    seq![
        45u8, 45, 45, 45, 45, 66, 69, 71, 73, 78, 32, 65, 71, 69, 32, 69, 78, 67, 82, 89, 80, 84, 69, 68, 32,
        70, 73, 76, 69, 45, 45, 45, 45, 45,
    ]
}

/// Whether the data starts with the age armor header.
pub open spec fn starts_with_age_header(data: Seq<u8>) -> bool {
    data.len() >= age_armor_header().len() && data.subrange(0, age_armor_header().len() as int) == age_armor_header()
}

/// A byte that is neither a visible ASCII character nor a space, tab, line
/// feed or carriage return.
pub open spec fn is_non_printable(b: u8) -> bool {
    !(0x21 <= b <= 0x7e) && b != 0x20 && b != 0x09 && b != 0x0a && b != 0x0d
}

/// How many bytes of the data are non-printable.
pub open spec fn non_printable_count(data: Seq<u8>) -> nat
    decreases data.len(),
{
    if data.len() == 0 {
        0
    } else {
        non_printable_count(data.drop_last()) + if is_non_printable(data.last()) { 1nat } else { 0nat }
    }
}

/// Whether data looks encrypted (or binary): it starts with the age header,
/// or it is not empty and more than a fifth (20%) of its bytes are
/// non-printable.
pub open spec fn likely_encrypted(data: Seq<u8>) -> bool {
    starts_with_age_header(data) || (data.len() > 0 && 5 * non_printable_count(data) > data.len())
}

/// Determines if file data is likely encrypted based on content heuristics:
/// it starts with the age encryption header, or more than 20% of its bytes
/// are non-printable (whitespace excluded). Empty data is not.
pub fn is_likely_encrypted(data: &[u8]) -> (r: bool)
    ensures
        r == likely_encrypted(data@),
{
    let header: [u8; 34] = [
        45u8, 45, 45, 45, 45, 66, 69, 71, 73, 78, 32, 65, 71, 69, 32, 69, 78, 67, 82, 89, 80, 84, 69, 68, 32,
        70, 73, 76, 69, 45, 45, 45, 45, 45,
    ];
    assert(header@ =~= age_armor_header());
    if data.len() >= 34 {
        let mut i: usize = 0;
        let mut same = true;
        while i < 34
            invariant
                data@.len() >= 34,
                i <= 34,
                header@ == age_armor_header(),
                same <==> forall|j: int| 0 <= j < i ==> data@[j] == header@[j],
            decreases 34 - i,
        {
            if data[i] != header[i] {
                same = false;
            }
            i = i + 1;
        }
        if same {
            assert(data@.subrange(0, 34) =~= age_armor_header());
            return true;
        }
        assert(data@.subrange(0, 34) != age_armor_header()) by {
            let j = choose|j: int| 0 <= j < 34 && data@[j] != header@[j];
            assert(data@.subrange(0, 34)[j] != age_armor_header()[j]);
        }
    }
    let mut count: usize = 0;
    let mut i: usize = 0;
    while i < data.len()
        invariant
            i <= data@.len(),
            count == non_printable_count(data@.take(i as int)),
            count <= i,
        decreases data.len() - i,
    {
        let b = data[i];
        assert(data@.take(i + 1).drop_last() =~= data@.take(i as int));
        if !(0x21 <= b && b <= 0x7e) && b != 0x20 && b != 0x09 && b != 0x0a && b != 0x0d {
            count = count + 1;
        }
        i = i + 1;
    }
    assert(data@.take(data.len() as int) =~= data@);
    data.len() > 0 && count > data.len() / 5
}

/// Errors of linking.
#[derive(Debug)]
pub enum Error {
    /// Could not create the link from the first path to the second.
    Symlink(String, String, std::io::Error),
    /// Could not remove an orphaned link (from the first path to the second).
    RemovingOrphan(String, String, std::io::Error),
    /// The target already exists (and linking may not replace it).
    AlreadyExists(String),
    /// The link source does not exist.
    LinkSourceDoesNotExist(String),
    /// Encrypting or decrypting failed.
    Encryption(EncryptionError),
    /// Reading or writing a file failed.
    Io(std::io::Error),
}

/// How a link of a given type is created on the filesystem.
#[derive(Clone, Copy, Debug, PartialEq, Eq, Structural)]
pub enum LinkMethod {
    /// A symbolic link.
    Symlink,
    /// A hard link (a junction for directories on Windows).
    Hardlink,
    /// A plain copy (recursive for directories).
    Copy,
    /// A copy that keeps the file structure for encrypted content; the
    /// content itself is handled when files are synchronised.
    Encrypt,
}

/// How a link of this type is created.
pub open spec fn method_for(link_type: LinkType) -> LinkMethod {
    match link_type {
        LinkType::Symbolic => LinkMethod::Symlink,
        LinkType::Hard => LinkMethod::Hardlink,
        LinkType::Copy | LinkType::Record => LinkMethod::Copy,
        LinkType::Encrypted => LinkMethod::Encrypt,
    }
}

/// How a link of this type is created.
pub fn link_method(link_type: &LinkType) -> (r: LinkMethod)
    ensures
        r == method_for(*link_type),
{
    match link_type {
        LinkType::Symbolic => LinkMethod::Symlink,
        LinkType::Hard => LinkMethod::Hardlink,
        LinkType::Copy | LinkType::Record => LinkMethod::Copy,
        LinkType::Encrypted => LinkMethod::Encrypt,
    }
}

/// What is asked of one link creation.
#[derive(Debug, Clone)]
pub struct CreateLinkRequest {
    /// The link source.
    pub from: String,
    /// The link target.
    pub to: String,
    /// The type of the link.
    pub link_type: LinkType,
    /// Whether an existing target may always be replaced.
    pub force: bool,
    /// Whether the target was linked by rotz before (and so may be replaced).
    pub linked_before: bool,
}

/// Where a link creation stands.
#[derive(Clone, Copy, Debug, PartialEq, Eq, Structural)]
pub enum CreateLinkState {
    /// Waiting to learn whether the source exists.
    CheckingSource,
    /// The first attempt to create the link is under way.
    Creating,
    /// The existing target is being removed.
    Removing,
    /// The second attempt, after the target was removed, is under way.
    Recreating,
    /// The outcome has been given.
    Finished,
}

/// What the caller reports after doing what it was asked.
#[derive(Debug)]
pub enum CreateLinkEvent {
    /// Whether the source exists.
    SourceChecked { exists: bool },
    /// The link was created.
    Created,
    /// Creating the link failed; `already_exists` tells whether it failed
    /// because the target already exists.
    CreateFailed { error: std::io::Error, already_exists: bool },
    /// The existing target was removed.
    Removed,
    /// Removing the existing target failed.
    RemoveFailed(std::io::Error),
}

/// What the caller is asked to do next.
#[derive(Debug)]
pub enum CreateLinkAction {
    /// Create the link with this method.
    Create(LinkMethod),
    /// Remove the existing target (a directory recursively).
    RemoveExisting,
    /// Stop with this outcome.
    Finish(Result<(), Error>),
}

/// Whether the event answers what was asked in this state.
pub open spec fn event_fits(state: CreateLinkState, event: CreateLinkEvent) -> bool {
    match state {
        CreateLinkState::CheckingSource => event is SourceChecked,
        CreateLinkState::Creating | CreateLinkState::Recreating => event is Created || event is CreateFailed,
        CreateLinkState::Removing => event is Removed || event is RemoveFailed,
        CreateLinkState::Finished => false,
    }
}

/// The failure of an attempt, as linking reports it.
pub open spec fn link_failure(request: CreateLinkRequest, error: std::io::Error) -> Result<(), Error> {
    Err(Error::Symlink(request.from, request.to, error))
}

/// One step of creating a link. A missing source is refused. A target that
/// already exists is replaced only when forced or when rotz linked it before;
/// otherwise the creation is refused with `AlreadyExists`. Any other failure,
/// and any failure after the target was removed, is reported as a failure to
/// create the link.
pub open spec fn create_link_next(state: CreateLinkState, event: CreateLinkEvent, request: CreateLinkRequest) -> (CreateLinkState, CreateLinkAction) {
    match (state, event) {
        (CreateLinkState::CheckingSource, CreateLinkEvent::SourceChecked { exists }) =>
            if exists {
                (CreateLinkState::Creating, CreateLinkAction::Create(method_for(request.link_type)))
            } else {
                (CreateLinkState::Finished, CreateLinkAction::Finish(Err(Error::LinkSourceDoesNotExist(request.from))))
            },
        (CreateLinkState::Creating, CreateLinkEvent::Created) => (CreateLinkState::Finished, CreateLinkAction::Finish(Ok(()))),
        (CreateLinkState::Creating, CreateLinkEvent::CreateFailed { error, already_exists }) =>
            if !already_exists {
                (CreateLinkState::Finished, CreateLinkAction::Finish(link_failure(request, error)))
            } else if request.force || request.linked_before {
                (CreateLinkState::Removing, CreateLinkAction::RemoveExisting)
            } else {
                (CreateLinkState::Finished, CreateLinkAction::Finish(Err(Error::AlreadyExists(request.to))))
            },
        (CreateLinkState::Removing, CreateLinkEvent::Removed) =>
            (CreateLinkState::Recreating, CreateLinkAction::Create(method_for(request.link_type))),
        (CreateLinkState::Removing, CreateLinkEvent::RemoveFailed(error)) =>
            (CreateLinkState::Finished, CreateLinkAction::Finish(link_failure(request, error))),
        (CreateLinkState::Recreating, CreateLinkEvent::Created) => (CreateLinkState::Finished, CreateLinkAction::Finish(Ok(()))),
        (CreateLinkState::Recreating, CreateLinkEvent::CreateFailed { error, .. }) =>
            (CreateLinkState::Finished, CreateLinkAction::Finish(link_failure(request, error))),
        (s, _) => (s, CreateLinkAction::Finish(Ok(()))),
    }
}

/// Creates a link, one step at a time: given where the creation stands and
/// what the caller reports, says where it stands next and what the caller
/// must do. It starts in `CheckingSource` and ends with `Finish`.
pub fn create_link_step(state: CreateLinkState, event: CreateLinkEvent, request: &CreateLinkRequest) -> (r: (CreateLinkState, CreateLinkAction))
    requires
        event_fits(state, event),
    ensures
        r == create_link_next(state, event, *request),
{
    match (state, event) {
        (CreateLinkState::CheckingSource, CreateLinkEvent::SourceChecked { exists }) => {
            if exists {
                (CreateLinkState::Creating, CreateLinkAction::Create(link_method(&request.link_type)))
            } else {
                (CreateLinkState::Finished, CreateLinkAction::Finish(Err(Error::LinkSourceDoesNotExist(request.from.clone()))))
            }
        },
        (CreateLinkState::Creating, CreateLinkEvent::Created) => (CreateLinkState::Finished, CreateLinkAction::Finish(Ok(()))),
        (CreateLinkState::Creating, CreateLinkEvent::CreateFailed { error, already_exists }) => {
            if !already_exists {
                (CreateLinkState::Finished, CreateLinkAction::Finish(Err(Error::Symlink(request.from.clone(), request.to.clone(), error))))
            } else if request.force || request.linked_before {
                (CreateLinkState::Removing, CreateLinkAction::RemoveExisting)
            } else {
                (CreateLinkState::Finished, CreateLinkAction::Finish(Err(Error::AlreadyExists(request.to.clone()))))
            }
        },
        (CreateLinkState::Removing, CreateLinkEvent::Removed) =>
            (CreateLinkState::Recreating, CreateLinkAction::Create(link_method(&request.link_type))),
        (CreateLinkState::Removing, CreateLinkEvent::RemoveFailed(error)) =>
            (CreateLinkState::Finished, CreateLinkAction::Finish(Err(Error::Symlink(request.from.clone(), request.to.clone(), error)))),
        (CreateLinkState::Recreating, CreateLinkEvent::Created) => (CreateLinkState::Finished, CreateLinkAction::Finish(Ok(()))),
        (CreateLinkState::Recreating, CreateLinkEvent::CreateFailed { error, .. }) =>
            (CreateLinkState::Finished, CreateLinkAction::Finish(Err(Error::Symlink(request.from.clone(), request.to.clone(), error)))),
        (s, _) => (s, CreateLinkAction::Finish(Ok(()))),
    }
}

/// The plan for linking one dotfile: whether, and in which direction, its
/// content is synchronised, and whether a link is created.
#[derive(Clone, Copy, Debug, PartialEq, Eq, Structural)]
pub struct EnhancedLinkPlan {
    /// How the dotfile and its target are synchronised; `None` where nothing
    /// is copied.
    pub sync: Option<SyncDirection>,
    /// Whether a symbolic or hard link is created.
    pub then_link: bool,
}

/// The plan for a dotfile of this link type whose source and target exist or
/// not: a symbolic or hard link is only linked (its content is never copied
/// onto the target, so an existing link keeps working as before); a copying
/// type is only synchronised, in the direction `sync_direction` gives.
pub open spec fn enhanced_link_plan(source_exists: bool, target_exists: bool, link_type: LinkType) -> EnhancedLinkPlan {
    if is_link_kind(link_type) {
        EnhancedLinkPlan { sync: None, then_link: true }
    } else {
        EnhancedLinkPlan { sync: Some(sync_direction(source_exists, target_exists, link_type)), then_link: false }
    }
}

/// Plans the linking of a dotfile from whether its source and target exist
/// and its link type (see `enhanced_link_plan`).
pub fn plan_enhanced_link(source_exists: bool, target_exists: bool, link_type: &LinkType) -> (r: EnhancedLinkPlan)
    ensures
        r == enhanced_link_plan(source_exists, target_exists, *link_type),
{
    match link_type {
        LinkType::Symbolic | LinkType::Hard => EnhancedLinkPlan { sync: None, then_link: true },
        LinkType::Copy | LinkType::Record | LinkType::Encrypted => EnhancedLinkPlan {
            sync: Some(determine_sync_direction(source_exists, target_exists, link_type)),
            then_link: false,
        },
    }
}

/// How content is carried from one side to the other.
#[derive(Clone, Copy, Debug, PartialEq, Eq, Structural)]
pub enum SyncMethod {
    /// The source is a directory: copy it recursively.
    CopyDirectory,
    /// Decrypt the (encrypted) source into the destination.
    SyncEncrypted,
    /// Copy the file.
    CopyFile,
}

/// How content is carried from the source to the destination: directories
/// are copied whatever the link type; files of the encrypted type are
/// decrypted; other files are copied.
pub fn sync_method(source_is_dir: bool, link_type: &LinkType) -> (r: SyncMethod)
    ensures
        r == if source_is_dir {
            SyncMethod::CopyDirectory
        } else if *link_type == LinkType::Encrypted {
            SyncMethod::SyncEncrypted
        } else {
            SyncMethod::CopyFile
        },
{
    if source_is_dir {
        return SyncMethod::CopyDirectory;
    }
    match link_type {
        LinkType::Encrypted => SyncMethod::SyncEncrypted,
        _ => SyncMethod::CopyFile,
    }
}

/// The content to write to the destination when synchronising an encrypted
/// file whose source holds `source_data`.
///
/// Plaintext source data is refused with `UnexpectedPlaintext`. Otherwise the
/// data is decrypted with the identity. Where the key is missing (no identity
/// is configured, the identity file cannot be read, or it holds no usable
/// key) the data is copied as it is. A failed decryption is an error, as
/// `decrypt_data` reports it.
pub fn encrypted_sync_data(source_data: Vec<u8>, identity: IdentityFile) -> (r: Result<Vec<u8>, Error>)
    ensures
        !likely_encrypted(source_data@) ==> (r matches Err(Error::Encryption(EncryptionError::UnexpectedPlaintext))),
        likely_encrypted(source_data@) ==> match identity {
            IdentityFile::NotConfigured => r matches Ok(out) && out@ == source_data@,
            IdentityFile::Unreadable(_) => r matches Ok(out) && out@ == source_data@,
            IdentityFile::Contents(text) => {
                let key = identity_text(text@);
                let c = source_data@;
                if !is_x25519_identity_text(key) {
                    r matches Ok(out) && out@ == c
                } else if !age_header_accepted(c) || !age_unlocks(key, c) {
                    r matches Err(Error::Encryption(EncryptionError::DecryptionFailed(_)))
                } else {
                    match age_payload(key, c) {
                        Some(plain) => r matches Ok(out) && out@ == plain,
                        None => r matches Err(Error::Encryption(EncryptionError::Io(_))),
                    }
                }
            },
        },
{
    if !is_likely_encrypted(source_data.as_slice()) {
        return Err(Error::Encryption(EncryptionError::UnexpectedPlaintext));
    }
    if let IdentityFile::Unreadable(_) = identity {
        return Ok(source_data);
    }
    match decrypt_data(source_data.as_slice(), identity) {
        Ok(decrypted) => Ok(decrypted),
        Err(EncryptionError::NotEnabled) | Err(EncryptionError::NoKey) => Ok(source_data),
        Err(e) => Err(Error::Encryption(e)),
    }
}

/// The links that rotz made: for each dot, its links from target path to
/// source path.
pub type LinkedState = Vec<(String, Vec<(String, String)>)>;

/// The target-to-source map that rotz recorded for a dot, if any.
pub open spec fn dot_links(linked: Seq<(String, Vec<(String, String)>)>, dot: Seq<char>) -> Option<Map<Seq<char>, Seq<char>>> {
    if entries_view(linked).contains_key(dot) {
        Some(entries_view(entries_view(linked)[dot]))
    } else {
        None
    }
}

/// A linked state in which no dot and no target of a dot is recorded twice.
pub open spec fn linked_state_wf(linked: Seq<(String, Vec<(String, String)>)>) -> bool {
    &&& distinct_keys(linked)
    &&& forall|i: int| 0 <= i < linked.len() ==> distinct_keys(#[trigger] linked[i].1@)
}

/// Whether the linked state names no dot twice and no target of a dot twice
/// (a state read back from disk is checked before it is used).
pub fn linked_state_is_valid(linked: &LinkedState) -> (r: bool)
    ensures
        r == linked_state_wf(linked@),
{
    if !has_distinct_keys(linked) {
        return false;
    }
    let mut i: usize = 0;
    while i < linked.len()
        invariant
            i <= linked@.len(),
            forall|j: int| 0 <= j < i ==> distinct_keys(#[trigger] linked@[j].1@),
        decreases linked.len() - i,
    {
        if !has_distinct_keys(&linked[i].1) {
            return false;
        }
        i = i + 1;
    }
    true
}

/// Whether rotz linked `to` for the dot `dot` before (so that linking may
/// replace it).
pub fn was_linked(linked: &LinkedState, dot: &String, to: &String) -> (r: bool)
    requires
        linked_state_wf(linked@),
    ensures
        r == (dot_links(linked@, dot@) matches Some(links) && links.contains_key(to@)),
{
    match find_key(linked, dot) {
        Some(i) => {
            proof {
                lemma_entries_view_value(linked@, i as int);
            }
            let inner = &linked[i].1;
            let found = find_key(inner, to);
            proof {
                lemma_entries_view_dom(inner@, to@);
            }
            found.is_some()
        },
        None => {
            proof {
                lemma_entries_view_dom(linked@, dot@);
            }
            false
        },
    }
}

/// Records that `to` was linked from `from` (replacing what was recorded for
/// `to` before).
pub fn record_link(links: &mut Vec<(String, String)>, to: String, from: String)
    requires
        distinct_keys(old(links)@),
    ensures
        distinct_keys(final(links)@),
        entries_view(final(links)@) == entries_view(old(links)@).insert(to@, from@),
{
    set_entry(links, to, from);
}

/// Records the links made for a dot; a dot for which no link was made is not
/// recorded.
pub fn record_dot(linked: &mut LinkedState, dot: String, links: Vec<(String, String)>)
    requires
        linked_state_wf(old(linked)@),
        distinct_keys(links@),
    ensures
        linked_state_wf(final(linked)@),
        links@.len() == 0 ==> final(linked)@ == old(linked)@,
        links@.len() > 0 ==> entries_view(final(linked)@) == entries_view(old(linked)@).insert(dot@, links@),
{
    if links.len() > 0 {
        let ghost before = linked@;
        let ghost inner = links@;
        set_entry(linked, dot, links);
        assert forall|i: int| 0 <= i < linked@.len() implies distinct_keys(#[trigger] linked@[i].1@) by {
            lemma_entries_view_value(linked@, i);
            let k = linked@[i].0@;
            if k != dot@ {
                lemma_entries_view_dom(before, k);
                let j = choose|j: int| 0 <= j < before.len() && #[trigger] before[j].0@ == k;
                lemma_entries_view_value(before, j);
            }
        }
    }
}

/// What the linked state means: for each dot, its links from target to
/// source.
pub open spec fn linked_view(linked: Seq<(String, Vec<(String, String)>)>) -> Map<Seq<char>, Map<Seq<char>, Seq<char>>> {
    entries_view(linked).map_values(|links: Seq<(String, String)>| entries_view(links))
}

/// One link of a run: its target, its source, and whether it was made (it is
/// not where the run is a dry run or creating it failed).
#[derive(Debug, Clone)]
pub struct LinkAttempt {
    pub to: String,
    pub from: String,
    pub made: bool,
}

/// Whether some link of a dot was made.
pub open spec fn some_made(attempts: Seq<LinkAttempt>) -> bool {
    exists|i: int| 0 <= i < attempts.len() && #[trigger] attempts[i].made
}

/// The links of a dot that were made, from target to source (a later link to
/// the same target wins).
pub open spec fn made_links(attempts: Seq<LinkAttempt>) -> Map<Seq<char>, Seq<char>>
    decreases attempts.len(),
{
    if attempts.len() == 0 {
        Map::empty()
    } else if attempts.last().made {
        made_links(attempts.drop_last()).insert(attempts.last().to@, attempts.last().from@)
    } else {
        made_links(attempts.drop_last())
    }
}

/// What is linked after a run over the dots, dot by dot: each dot with its
/// links that were made; a dot of which no link was made is not recorded.
pub open spec fn linked_after_run(dots: Seq<(String, Vec<LinkAttempt>)>) -> Map<Seq<char>, Map<Seq<char>, Seq<char>>>
    decreases dots.len(),
{
    if dots.len() == 0 {
        Map::empty()
    } else if some_made(dots.last().1@) {
        linked_after_run(dots.drop_last()).insert(dots.last().0@, made_links(dots.last().1@))
    } else {
        linked_after_run(dots.drop_last())
    }
}

/// The links of a dot that were made, recorded from target to source.
fn record_attempts(attempts: &Vec<LinkAttempt>) -> (r: Vec<(String, String)>)
    ensures
        distinct_keys(r@),
        entries_view(r@) == made_links(attempts@),
        r@.len() > 0 <==> some_made(attempts@),
{
    let mut links: Vec<(String, String)> = Vec::new();
    let mut i: usize = 0;
    assert(attempts@.take(0) =~= Seq::<LinkAttempt>::empty());
    while i < attempts.len()
        invariant
            i <= attempts@.len(),
            distinct_keys(links@),
            entries_view(links@) == made_links(attempts@.take(i as int)),
            links@.len() > 0 <==> some_made(attempts@.take(i as int)),
        decreases attempts.len() - i,
    {
        assert(attempts@.take(i + 1).drop_last() =~= attempts@.take(i as int));
        assert(attempts@.take(i + 1).last() == attempts@[i as int]);
        if attempts[i].made {
            let to = attempts[i].to.clone();
            let ghost t = to@;
            record_link(&mut links, to, attempts[i].from.clone());
            proof {
                lemma_entries_view_dom(links@, t);
            }
            assert(attempts@.take(i + 1)[i as int].made);
        } else {
            assert forall|j: int| 0 <= j < i + 1 && #[trigger] attempts@.take(i + 1)[j].made implies
                attempts@.take(i as int)[j].made by {
                assert(j < i);
            }
            proof {
                if some_made(attempts@.take(i as int)) {
                    let j = choose|j: int| 0 <= j < i && #[trigger] attempts@.take(i as int)[j].made;
                    assert(attempts@.take(i + 1)[j].made);
                }
            }
        }
        i = i + 1;
    }
    assert(attempts@.take(attempts.len() as int) =~= attempts@);
    links
}

/// Records what a run over the dots linked: for each dot, the links that were
/// made; a dot of which no link was made is left out.
pub fn record_run(dots: Vec<(String, Vec<LinkAttempt>)>) -> (r: LinkedState)
    ensures
        linked_state_wf(r@),
        linked_view(r@) == linked_after_run(dots@),
{
    let ghost all = dots@;
    let total: usize = dots.len();
    let mut dots = dots;
    let mut linked: LinkedState = Vec::new();
    let mut done: usize = 0;
    assert(linked_view(linked@) =~= linked_after_run(all.take(0)));
    while dots.len() > 0
        invariant
            done <= all.len() == total,
            dots@ == all.skip(done as int),
            linked_state_wf(linked@),
            linked_view(linked@) == linked_after_run(all.take(done as int)),
        decreases dots.len(),
    {
        assert(done < all.len());
        let (name, attempts) = dots.remove(0);
        assert(all[done as int] == (name, attempts));
        assert(all.take(done + 1).drop_last() =~= all.take(done as int));
        let inner = record_attempts(&attempts);
        let ghost before = linked@;
        let ghost n = name@;
        let ghost inner_view = inner@;
        record_dot(&mut linked, name, inner);
        proof {
            if inner_view.len() > 0 {
                assert(linked_view(linked@) =~= linked_view(before).insert(n, entries_view(inner_view)));
            }
        }
        assert(linked_view(linked@) =~= linked_after_run(all.take(done + 1)));
        done = done + 1;
        assert(dots@ =~= all.skip(done as int));
    }
    assert(all.take(all.len() as int) =~= all);
    linked
}

/// A link that rotz made earlier and that the dotfiles no longer ask for.
#[derive(Debug, Clone)]
pub struct Orphan {
    /// The dot it belongs to.
    pub dot: String,
    /// The link's target.
    pub to: String,
    /// The link's source.
    pub from: String,
}

/// The orphans of one dot, in the order its links were recorded.
pub open spec fn dot_orphans(current: Set<Seq<char>>, dot: Seq<char>, links: Seq<(String, String)>) -> Seq<(Seq<char>, Seq<char>, Seq<char>)>
    decreases links.len(),
{
    if links.len() == 0 {
        Seq::empty()
    } else {
        dot_orphans(current, dot, links.drop_last()) + if current.contains(links.last().0@) {
            Seq::empty()
        } else {
            seq![(dot, links.last().0@, links.last().1@)]
        }
    }
}

/// The orphans of all selected dots, dot by dot in the order they were
/// recorded: the recorded links whose target is not among the targets the
/// dotfiles ask for now.
pub open spec fn orphans(current: Set<Seq<char>>, linked: Seq<(String, Vec<(String, String)>)>, selected: Set<Seq<char>>) -> Seq<(Seq<char>, Seq<char>, Seq<char>)>
    decreases linked.len(),
{
    if linked.len() == 0 {
        Seq::empty()
    } else {
        orphans(current, linked.drop_last(), selected) + if selected.contains(linked.last().0@) {
            dot_orphans(current, linked.last().0@, linked.last().1@)
        } else {
            Seq::empty()
        }
    }
}

/// What an orphan names: its dot, target and source.
pub open spec fn orphan_view(o: Orphan) -> (Seq<char>, Seq<char>, Seq<char>) {
    (o.dot@, o.to@, o.from@)
}

/// Finds the links that rotz made earlier for the selected dots and that the
/// dotfiles no longer ask for: those whose target is none of `current_targets`.
pub fn find_orphans(current_targets: &Vec<String>, linked: &LinkedState, selected: &Vec<String>) -> (r: Vec<Orphan>)
    ensures
        r@.map_values(|o: Orphan| orphan_view(o)) == orphans(path_set(current_targets@), linked@, path_set(selected@)),
{
    let ghost current = path_set(current_targets@);
    let ghost chosen = path_set(selected@);
    let mut result: Vec<Orphan> = Vec::new();
    let mut i: usize = 0;
    assert(linked@.take(0) =~= Seq::<(String, Vec<(String, String)>)>::empty());
    while i < linked.len()
        invariant
            i <= linked@.len(),
            current == path_set(current_targets@),
            chosen == path_set(selected@),
            result@.map_values(|o: Orphan| orphan_view(o)) == orphans(current, linked@.take(i as int), chosen),
        decreases linked.len() - i,
    {
        let ghost before = result@.map_values(|o: Orphan| orphan_view(o));
        assert(linked@.take(i + 1).drop_last() =~= linked@.take(i as int));
        let dot = &linked[i].0;
        let links = &linked[i].1;
        if contains_path(selected, dot) {
            let mut j: usize = 0;
            assert(links@.take(0) =~= Seq::<(String, String)>::empty());
            assert(before + dot_orphans(current, dot@, links@.take(0)) =~= before);
            while j < links.len()
                invariant
                    j <= links@.len(),
                    current == path_set(current_targets@),
                    result@.map_values(|o: Orphan| orphan_view(o)) == before + dot_orphans(current, dot@, links@.take(j as int)),
                decreases links.len() - j,
            {
                assert(links@.take(j + 1).drop_last() =~= links@.take(j as int));
                let ghost so_far = result@.map_values(|o: Orphan| orphan_view(o));
                if !contains_path(current_targets, &links[j].0) {
                    result.push(Orphan { dot: dot.clone(), to: links[j].0.clone(), from: links[j].1.clone() });
                    assert(result@.map_values(|o: Orphan| orphan_view(o)) =~= so_far.push((dot@, links@[j as int].0@, links@[j as int].1@)));
                }
                assert(result@.map_values(|o: Orphan| orphan_view(o)) =~= before + dot_orphans(current, dot@, links@.take(j + 1)));
                j = j + 1;
            }
            assert(links@.take(links.len() as int) =~= links@);
        }
        assert(result@.map_values(|o: Orphan| orphan_view(o)) =~= orphans(current, linked@.take(i + 1), chosen));
        i = i + 1;
    }
    assert(linked@.take(linked.len() as int) =~= linked@);
    result
}

/// What came of removing an orphaned link.
#[derive(Debug)]
pub enum OrphanRemoval {
    /// The link was removed.
    Removed,
    /// The link was already gone; nothing is reported.
    AlreadyGone,
    /// Removing the link failed.
    Failed(Error),
}

/// Judges the outcome of removing an orphan's target. `attempt` is `None`
/// where nothing was removed because the run is a dry run; the orphan is then
/// reported as removed. A target that was already gone is not an error; any
/// other failure is reported as a failure to remove the orphaned link (from
/// its source to its target).
pub fn orphan_removal(orphan: &Orphan, attempt: Option<Result<(), std::io::Error>>, not_found: bool) -> (r: OrphanRemoval)
    ensures
        attempt is None ==> r is Removed,
        attempt matches Some(outcome) ==> {
            &&& outcome is Ok ==> r is Removed
            &&& outcome matches Err(e) ==> if not_found {
                r is AlreadyGone
            } else {
                r matches OrphanRemoval::Failed(Error::RemovingOrphan(from, to, err)) && from == orphan.from && to == orphan.to && err == e
            }
        },
{
    match attempt {
        None => OrphanRemoval::Removed,
        Some(Ok(())) => OrphanRemoval::Removed,
        Some(Err(e)) => {
            if not_found {
                OrphanRemoval::AlreadyGone
            } else {
                OrphanRemoval::Failed(Error::RemovingOrphan(orphan.from.clone(), orphan.to.clone(), e))
            }
        },
    }
}

/// The failures among the outcomes of removing orphans, in order.
pub open spec fn removal_failures(outcomes: Seq<OrphanRemoval>) -> Seq<Error>
    decreases outcomes.len(),
{
    if outcomes.len() == 0 {
        Seq::empty()
    } else {
        removal_failures(outcomes.drop_last()) + match outcomes.last() {
            OrphanRemoval::Failed(e) => seq![e],
            _ => Seq::empty(),
        }
    }
}

/// Ends the removal of orphans: linking goes on only if no removal failed;
/// otherwise all failures are returned, in order, and nothing is linked.
pub fn finish_orphan_removal(outcomes: Vec<OrphanRemoval>) -> (r: Result<(), Vec<Error>>)
    ensures
        removal_failures(outcomes@).len() == 0 ==> r is Ok,
        removal_failures(outcomes@).len() > 0 ==> (r matches Err(errors) && errors@ == removal_failures(outcomes@)),
{
    let ghost all = outcomes@;
    let total: usize = outcomes.len();
    let mut outcomes = outcomes;
    let mut errors: Vec<Error> = Vec::new();
    let mut done: usize = 0;
    assert(all.take(0) =~= Seq::<OrphanRemoval>::empty());
    while outcomes.len() > 0
        invariant
            done <= all.len() == total,
            outcomes@ == all.skip(done as int),
            errors@ == removal_failures(all.take(done as int)),
        decreases outcomes.len(),
    {
        assert(done < all.len());
        let outcome = outcomes.remove(0);
        assert(all[done as int] == outcome);
        assert(all.take(done + 1).drop_last() =~= all.take(done as int));
        let ghost before = errors@;
        match outcome {
            OrphanRemoval::Failed(e) => {
                errors.push(e);
            },
            _ => {},
        }
        assert(errors@ =~= removal_failures(all.take(done + 1)));
        done = done + 1;
        assert(outcomes@ =~= all.skip(done as int));
    }
    assert(all.take(all.len() as int) =~= all);
    if errors.len() == 0 {
        Ok(())
    } else {
        Err(errors)
    }
}

/// The link command: the settings it links with and the template engine that
/// renders the dots.
pub struct Link<E> {
    pub config: Config,
    pub engine: E,
}

impl<E> Link<E> {
    pub fn new(config: Config, engine: E) -> (r: Self)
        ensures
            r.config == config,
            r.engine == engine,
    {
        Link { config, engine }
    }
}

/// The targets that a dot's links ask for.
pub open spec fn links_targets(links: Seq<(String, LinkConfig)>) -> Set<Seq<char>>
    decreases links.len(),
{
    if links.len() == 0 {
        Set::empty()
    } else {
        links_targets(links.drop_last()).union(path_set(links.last().1.targets@))
    }
}

/// The targets that the links of all dots ask for.
pub open spec fn dots_targets(dots: Seq<(String, Links)>) -> Set<Seq<char>>
    decreases dots.len(),
{
    if dots.len() == 0 {
        Set::empty()
    } else {
        dots_targets(dots.drop_last()).union(links_targets(dots.last().1@))
    }
}

/// All targets that the dots ask for now; a recorded link whose target is
/// not among them is an orphan.
pub fn requested_targets(dots: &Vec<(String, Links)>) -> (r: Vec<String>)
    ensures
        path_set(r@) == dots_targets(dots@),
{
    let mut result: Vec<String> = Vec::new();
    let mut i: usize = 0;
    assert(path_set(result@) =~= dots_targets(dots@.take(0)));
    while i < dots.len()
        invariant
            i <= dots@.len(),
            path_set(result@) == dots_targets(dots@.take(i as int)),
        decreases dots.len() - i,
    {
        assert(dots@.take(i + 1).drop_last() =~= dots@.take(i as int));
        let ghost before = path_set(result@);
        let links = &dots[i].1;
        let mut j: usize = 0;
        assert(before.union(links_targets(links@.take(0))) =~= before);
        while j < links.len()
            invariant
                j <= links@.len(),
                path_set(result@) == before.union(links_targets(links@.take(j as int))),
            decreases links.len() - j,
        {
            assert(links@.take(j + 1).drop_last() =~= links@.take(j as int));
            extend_paths(&mut result, &links[j].1.targets);
            assert(path_set(result@) =~= before.union(links_targets(links@.take(j + 1))));
            j = j + 1;
        }
        assert(links@.take(links.len() as int) =~= links@);
        assert(path_set(result@) =~= dots_targets(dots@.take(i + 1)));
        i = i + 1;
    }
    assert(dots@.take(dots.len() as int) =~= dots@);
    result
}

/// One link to make: from a source (relative to its dot) to a target, with
/// the link type that applies.
#[derive(Debug, Clone)]
pub struct LinkJob {
    pub from: String,
    pub to: String,
    pub link_type: LinkType,
}

/// What a link job names.
pub open spec fn job_view(job: LinkJob) -> (Seq<char>, Seq<char>, LinkType) {
    (job.from@, job.to@, job.link_type)
}

/// The jobs of one link: one per target, in order, each with the link's own
/// type or else the global one.
pub open spec fn link_jobs_of(from: Seq<char>, targets: Seq<String>, link_type: LinkType) -> Seq<(Seq<char>, Seq<char>, LinkType)> {
    targets.map_values(|t: String| (from, t@, link_type))
}

/// The jobs of a dot's links, link by link.
pub open spec fn dot_jobs(links: Seq<(String, LinkConfig)>, global: LinkType) -> Seq<(Seq<char>, Seq<char>, LinkType)>
    decreases links.len(),
{
    if links.len() == 0 {
        Seq::empty()
    } else {
        let last = links.last();
        dot_jobs(links.drop_last(), global) + link_jobs_of(
            last.0@,
            last.1.targets@,
            match last.1.link_type {
                Some(t) => t,
                None => global,
            },
        )
    }
}

/// The links to make for a dot: every target of every link, with the link
/// type that applies to it (the link's override, or else `global`).
pub fn link_jobs(links: &Links, global: &LinkType) -> (r: Vec<LinkJob>)
    ensures
        r@.map_values(|j: LinkJob| job_view(j)) == dot_jobs(links@, *global),
{
    let mut result: Vec<LinkJob> = Vec::new();
    let mut i: usize = 0;
    assert(result@.map_values(|j: LinkJob| job_view(j)) =~= dot_jobs(links@.take(0), *global));
    while i < links.len()
        invariant
            i <= links@.len(),
            result@.map_values(|j: LinkJob| job_view(j)) == dot_jobs(links@.take(i as int), *global),
        decreases links.len() - i,
    {
        assert(links@.take(i + 1).drop_last() =~= links@.take(i as int));
        let from = &links[i].0;
        let config = &links[i].1;
        let link_type = config.effective_link_type(global);
        let ghost before = result@.map_values(|j: LinkJob| job_view(j));
        let mut k: usize = 0;
        assert(before + link_jobs_of(from@, config.targets@.take(0), link_type) =~= before);
        while k < config.targets.len()
            invariant
                k <= config.targets@.len(),
                result@.map_values(|j: LinkJob| job_view(j)) == before + link_jobs_of(from@, config.targets@.take(k as int), link_type),
            decreases config.targets.len() - k,
        {
            let ghost so_far = result@.map_values(|j: LinkJob| job_view(j));
            result.push(LinkJob { from: from.clone(), to: config.targets[k].clone(), link_type });
            assert(result@.map_values(|j: LinkJob| job_view(j)) =~= so_far.push((from@, config.targets@[k as int]@, link_type)));
            assert(link_jobs_of(from@, config.targets@.take(k + 1), link_type) =~= link_jobs_of(from@, config.targets@.take(k as int), link_type).push((from@, config.targets@[k as int]@, link_type)));
            assert(result@.map_values(|j: LinkJob| job_view(j)) =~= before + link_jobs_of(from@, config.targets@.take(k + 1), link_type));
            k = k + 1;
        }
        assert(config.targets@.take(config.targets.len() as int) =~= config.targets@);
        assert(result@.map_values(|j: LinkJob| job_view(j)) =~= dot_jobs(links@.take(i + 1), *global));
        i = i + 1;
    }
    assert(links@.take(links.len() as int) =~= links@);
    result
}

} // verus!
