//! Properties that hold across the library's functions and states.

use vstd::prelude::*;

use crate::assoc::entries_view;
use crate::capabilities::{CapabilitiesSpec, empty_capabilities, merge_capabilities, merge_link_maps};
use crate::config::{LinkType, is_link_kind};
use crate::crypto::{
    age_decryption, age_header_accepted, age_payload, age_unlocks, encrypts_to, is_x25519_identity_text, x25519_recipient_text,
};
use crate::encryption::{SyncDirection, identity_text, sync_direction};
use crate::link::{
    CreateLinkAction, CreateLinkEvent, CreateLinkRequest, CreateLinkState, create_link_next, dot_links,
    enhanced_link_plan, event_fits,
};

verus! {

/// Content never flows out of a side that does not exist: it goes from the
/// source only when the source exists, from the target only when the target
/// exists, and both are created empty only when neither exists.
pub proof fn law_sync_reads_only_existing_side(source_exists: bool, target_exists: bool, link_type: LinkType)
    ensures
        sync_direction(source_exists, target_exists, link_type) == SyncDirection::SourceToTarget ==> source_exists,
        sync_direction(source_exists, target_exists, link_type) == SyncDirection::TargetToSource ==> target_exists,
        sync_direction(source_exists, target_exists, link_type) == SyncDirection::CreateBoth <==> (!source_exists && !target_exists),
{
}

/// A symbolic or hard link is only ever linked: nothing is copied between
/// the dotfile and its target, whichever of them exists. A copying link type
/// is only ever synchronised, and never linked.
pub proof fn law_link_kinds_never_copy(source_exists: bool, target_exists: bool, link_type: LinkType)
    ensures
        is_link_kind(link_type) ==> enhanced_link_plan(source_exists, target_exists, link_type).sync is None,
        enhanced_link_plan(source_exists, target_exists, link_type).then_link <==> is_link_kind(link_type),
        !is_link_kind(link_type) ==> enhanced_link_plan(source_exists, target_exists, link_type).sync
            == Some(sync_direction(source_exists, target_exists, link_type)),
{
}

/// What is encrypted to a recipient decrypts back to the same data with an
/// identity file that holds (up to surrounding white space) a secret key of
/// that recipient: every stage of decryption succeeds and the plaintext is
/// the data, so `decrypt_data` gives the data back.
pub proof fn law_encrypted_data_decrypts(recipient: Seq<char>, data: Seq<u8>, ciphertext: Seq<u8>, identity_contents: Seq<char>)
    requires
        encrypts_to(recipient, data, ciphertext),
        is_x25519_identity_text(identity_text(identity_contents)),
        x25519_recipient_text(identity_text(identity_contents)) == recipient,
    ensures
        age_header_accepted(ciphertext),
        age_unlocks(identity_text(identity_contents), ciphertext),
        age_payload(identity_text(identity_contents), ciphertext) == Some(data),
{
    assert(age_decryption(identity_text(identity_contents), ciphertext) == Some(data));
}

/// Creating a link removes an existing target only when that target is in
/// the way of the first attempt and linking was forced or rotz linked the
/// target before; an existing target that may not be replaced is answered
/// with `AlreadyExists`.
pub proof fn law_existing_target_replaced_only_with_permission(
    state: CreateLinkState,
    event: CreateLinkEvent,
    request: CreateLinkRequest,
)
    requires
        event_fits(state, event),
    ensures
        create_link_next(state, event, request).1 is RemoveExisting ==> {
            &&& state == CreateLinkState::Creating
            &&& event matches CreateLinkEvent::CreateFailed { already_exists, .. } && already_exists
            &&& request.force || request.linked_before
        },
        ({
            &&& state == CreateLinkState::Creating
            &&& event matches CreateLinkEvent::CreateFailed { already_exists, .. } && already_exists
            &&& !request.force
            &&& !request.linked_before
        }) ==> (create_link_next(state, event, request).1 matches CreateLinkAction::Finish(Err(crate::link::Error::AlreadyExists(to))) && to == request.to),
{
}

/// How far a link creation is from its end.
pub open spec fn steps_left(state: CreateLinkState) -> nat {
    match state {
        CreateLinkState::CheckingSource => 4,
        CreateLinkState::Creating => 3,
        CreateLinkState::Removing => 2,
        CreateLinkState::Recreating => 1,
        CreateLinkState::Finished => 0,
    }
}

/// Every step of a link creation moves it closer to its end, and a step
/// ends it exactly when it gives the outcome: a link creation takes at most
/// four steps, and the link is created at most twice.
pub proof fn law_create_link_terminates(state: CreateLinkState, event: CreateLinkEvent, request: CreateLinkRequest)
    requires
        event_fits(state, event),
    ensures
        steps_left(create_link_next(state, event, request).0) < steps_left(state),
        (create_link_next(state, event, request).0 == CreateLinkState::Finished) <==> (create_link_next(state, event, request).1 is Finish),
{
}

/// Merging capabilities that say nothing changes nothing, on either side.
pub proof fn law_merge_with_nothing(c: CapabilitiesSpec)
    ensures
        merge_capabilities(c, empty_capabilities()) == c,
        merge_capabilities(empty_capabilities(), c) == c,
{
    assert(merge_capabilities(c, empty_capabilities()) =~= c);
    assert(merge_capabilities(empty_capabilities(), c) =~= c);
}

/// Links and dependencies merge the same however merges are grouped: the
/// targets of a source are the union of all its targets, and its link type is
/// the last override given.
pub proof fn law_merge_links_and_depends_associative(a: CapabilitiesSpec, b: CapabilitiesSpec, c: CapabilitiesSpec)
    ensures
        merge_capabilities(merge_capabilities(a, b), c).links == merge_capabilities(a, merge_capabilities(b, c)).links,
        merge_capabilities(merge_capabilities(a, b), c).depends == merge_capabilities(a, merge_capabilities(b, c)).depends,
{
    match (a.links, b.links, c.links) {
        (Some(x), Some(y), Some(z)) => {
            let left = merge_link_maps(merge_link_maps(x, y), z);
            let right = merge_link_maps(x, merge_link_maps(y, z));
            assert forall|k: Seq<char>| #[trigger] left.contains_key(k) implies left[k] == right[k] by {
                let l = left[k];
                let r = right[k];
                assert(l.targets =~= r.targets);
                assert(l =~= r);
            }
            assert(left =~= right);
        },
        _ => {},
    }
    match (a.depends, b.depends, c.depends) {
        (Some(x), Some(y), Some(z)) => {
            assert(x.union(y).union(z) =~= x.union(y.union(z)));
        },
        _ => {},
    }
}

/// A dot recorded with its links is afterwards found with exactly those
/// links, so each of its targets counts as linked by rotz before.
pub proof fn law_recorded_links_are_found(
    before: Seq<(String, Vec<(String, String)>)>,
    after: Seq<(String, Vec<(String, String)>)>,
    dot: String,
    links: Vec<(String, String)>,
)
    requires
        entries_view(after) == entries_view(before).insert(dot@, links@),
    ensures
        dot_links(after, dot@) == Some(entries_view(links@)),
{
}

} // verus!
