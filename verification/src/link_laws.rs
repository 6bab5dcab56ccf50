//! What the steps of linking do, stated over the dots, links and records
//! they are given.

use vstd::prelude::*;

use crate::capabilities::Links;
use crate::config::LinkType;
use crate::encryption::{SyncDirection, sync_direction};
use crate::link::{
    CreateLinkAction, CreateLinkEvent, CreateLinkRequest, CreateLinkState, LinkAttempt, LinkMethod, create_link_next,
    dot_jobs, dots_targets, enhanced_link_plan, link_jobs_of, linked_after_run, links_targets, made_links, orphans,
    dot_orphans, some_made, is_non_printable, non_printable_count, likely_encrypted, starts_with_age_header,
    removal_failures, OrphanRemoval, Error,
};

verus! {

/// Some link of some dot asks for the target `t`.
pub open spec fn some_dot_requests(dots: Seq<(String, Links)>, t: Seq<char>) -> bool {
    exists|i: int, j: int, n: int|
        0 <= i < dots.len() && 0 <= j < dots[i].1@.len() && 0 <= n < dots[i].1@[j].1.targets@.len()
            && #[trigger] dots[i].1@[j].1.targets@[n]@ == t
}

proof fn lemma_links_targets(links: Seq<(String, crate::encryption::LinkConfig)>, t: Seq<char>)
    ensures
        links_targets(links).contains(t) <==> exists|j: int, n: int|
            0 <= j < links.len() && 0 <= n < links[j].1.targets@.len() && #[trigger] links[j].1.targets@[n]@ == t,
    decreases links.len(),
{
    if links.len() > 0 {
        let init = links.drop_last();
        lemma_links_targets(init, t);
        if links_targets(links).contains(t) {
            if links_targets(init).contains(t) {
                let (j, n) = choose|j: int, n: int|
                    0 <= j < init.len() && 0 <= n < init[j].1.targets@.len() && #[trigger] init[j].1.targets@[n]@ == t;
                assert(links[j] == init[j]);
                assert(links[j].1.targets@[n]@ == t);
            } else {
                let j = links.len() - 1;
                let n = choose|n: int| 0 <= n < links[j].1.targets@.len() && #[trigger] links[j].1.targets@[n]@ == t;
                assert(links[j].1.targets@[n]@ == t);
            }
        }
        if exists|j: int, n: int| 0 <= j < links.len() && 0 <= n < links[j].1.targets@.len() && #[trigger] links[j].1.targets@[n]@ == t {
            let (j, n) = choose|j: int, n: int|
                0 <= j < links.len() && 0 <= n < links[j].1.targets@.len() && #[trigger] links[j].1.targets@[n]@ == t;
            if j < links.len() - 1 {
                assert(init[j] == links[j]);
                assert(init[j].1.targets@[n]@ == t);
            } else {
                assert(crate::paths::path_set(links.last().1.targets@).contains(t));
            }
        }
    }
}

proof fn lemma_dots_targets(dots: Seq<(String, Links)>, t: Seq<char>)
    ensures
        dots_targets(dots).contains(t) <==> some_dot_requests(dots, t),
    decreases dots.len(),
{
    if dots.len() > 0 {
        let init = dots.drop_last();
        let last = dots.len() - 1;
        lemma_dots_targets(init, t);
        lemma_links_targets(dots[last].1@, t);
        if dots_targets(dots).contains(t) {
            if dots_targets(init).contains(t) {
                let (i, j, n) = choose|i: int, j: int, n: int|
                    0 <= i < init.len() && 0 <= j < init[i].1@.len() && 0 <= n < init[i].1@[j].1.targets@.len()
                        && #[trigger] init[i].1@[j].1.targets@[n]@ == t;
                assert(dots[i] == init[i]);
                assert(dots[i].1@[j].1.targets@[n]@ == t);
            } else {
                let (j, n) = choose|j: int, n: int|
                    0 <= j < dots[last].1@.len() && 0 <= n < dots[last].1@[j].1.targets@.len()
                        && #[trigger] dots[last].1@[j].1.targets@[n]@ == t;
                assert(dots[last].1@[j].1.targets@[n]@ == t);
            }
        }
        if some_dot_requests(dots, t) {
            let (i, j, n) = choose|i: int, j: int, n: int|
                0 <= i < dots.len() && 0 <= j < dots[i].1@.len() && 0 <= n < dots[i].1@[j].1.targets@.len()
                    && #[trigger] dots[i].1@[j].1.targets@[n]@ == t;
            if i < last {
                assert(init[i] == dots[i]);
                assert(init[i].1@[j].1.targets@[n]@ == t);
            } else {
                assert(dots[last].1@[j].1.targets@[n]@ == t);
            }
        }
    }
}

/// The targets asked for now are exactly the targets of the links of the
/// dots: every target of every link of every dot, and nothing else. So a
/// recorded link whose target some dot still asks for is never an orphan.
pub proof fn law_requested_targets_are_all_link_targets(dots: Seq<(String, Links)>, t: Seq<char>)
    ensures
        dots_targets(dots).contains(t) <==> some_dot_requests(dots, t),
{
    lemma_dots_targets(dots, t);
}

/// Every link the creation makes, on the first attempt and again after the
/// existing target was removed, is made the way the link type asks: a
/// symbolic link, a hard link, a copy (for the copy and record types), or an
/// encrypted copy. A link is made only once the source is known to exist, or
/// right after the existing target was removed.
pub proof fn law_create_link_makes_the_requested_kind(state: CreateLinkState, event: CreateLinkEvent, request: CreateLinkRequest)
    ensures
        create_link_next(state, event, request).1 matches CreateLinkAction::Create(m) ==> {
            &&& request.link_type == LinkType::Symbolic ==> m == LinkMethod::Symlink
            &&& request.link_type == LinkType::Hard ==> m == LinkMethod::Hardlink
            &&& request.link_type == LinkType::Copy ==> m == LinkMethod::Copy
            &&& request.link_type == LinkType::Record ==> m == LinkMethod::Copy
            &&& request.link_type == LinkType::Encrypted ==> m == LinkMethod::Encrypt
        },
        create_link_next(state, event, request).1 is Create <==> {
            ||| (state == CreateLinkState::CheckingSource && (event matches CreateLinkEvent::SourceChecked { exists } && exists))
            ||| (state == CreateLinkState::Removing && event is Removed)
        },
        (state == CreateLinkState::Removing && event is Removed) ==> create_link_next(state, event, request).0 == CreateLinkState::Recreating,
{
}

/// When both sides exist, the target wins for the record and encrypted types
/// (the target holds the live copy) and the dotfile wins for the others; when
/// one side is missing the other is copied over; when both are missing both
/// are created.
pub proof fn law_sync_direction_table(source_exists: bool, target_exists: bool, link_type: LinkType)
    ensures
        !source_exists && !target_exists ==> sync_direction(source_exists, target_exists, link_type) == SyncDirection::CreateBoth,
        !source_exists && target_exists ==> sync_direction(source_exists, target_exists, link_type) == SyncDirection::TargetToSource,
        source_exists && !target_exists ==> sync_direction(source_exists, target_exists, link_type) == SyncDirection::SourceToTarget,
        source_exists && target_exists ==> (sync_direction(source_exists, target_exists, link_type) == if link_type == LinkType::Record
            || link_type == LinkType::Encrypted {
            SyncDirection::TargetToSource
        } else {
            SyncDirection::SourceToTarget
        }),
{
}

/// Symbolic and hard links are linked and never synchronised; the copy,
/// record and encrypted types are synchronised and never linked.
pub proof fn law_plan_by_link_type(source_exists: bool, target_exists: bool, link_type: LinkType)
    ensures
        (link_type == LinkType::Symbolic || link_type == LinkType::Hard) ==> {
            &&& enhanced_link_plan(source_exists, target_exists, link_type).then_link
            &&& enhanced_link_plan(source_exists, target_exists, link_type).sync is None
        },
        (link_type == LinkType::Copy || link_type == LinkType::Record || link_type == LinkType::Encrypted) ==> {
            &&& !enhanced_link_plan(source_exists, target_exists, link_type).then_link
            &&& enhanced_link_plan(source_exists, target_exists, link_type).sync is Some
        },
{
}

/// The link type that applies to a link: its own override, or else the
/// global one.
pub open spec fn applied_link_type(config: crate::encryption::LinkConfig, global: LinkType) -> LinkType {
    match config.link_type {
        Some(t) => t,
        None => global,
    }
}

proof fn lemma_dot_jobs(links: Seq<(String, crate::encryption::LinkConfig)>, global: LinkType, job: (Seq<char>, Seq<char>, LinkType))
    ensures
        dot_jobs(links, global).contains(job) <==> exists|j: int, n: int|
            0 <= j < links.len() && 0 <= n < links[j].1.targets@.len() && #[trigger] links[j].1.targets@[n]@ == job.1
                && links[j].0@ == job.0 && applied_link_type(links[j].1, global) == job.2,
    decreases links.len(),
{
    if links.len() > 0 {
        let init = links.drop_last();
        let last = links.len() - 1;
        lemma_dot_jobs(init, global, job);
        let lt = applied_link_type(links[last].1, global);
        let tail = link_jobs_of(links[last].0@, links[last].1.targets@, lt);
        assert(dot_jobs(links, global) == dot_jobs(init, global) + tail);
        if dot_jobs(links, global).contains(job) {
            let x = choose|x: int| 0 <= x < dot_jobs(links, global).len() && dot_jobs(links, global)[x] == job;
            if x < dot_jobs(init, global).len() {
                assert(dot_jobs(init, global)[x] == job);
                let (j, n) = choose|j: int, n: int|
                    0 <= j < init.len() && 0 <= n < init[j].1.targets@.len() && #[trigger] init[j].1.targets@[n]@ == job.1
                        && init[j].0@ == job.0 && applied_link_type(init[j].1, global) == job.2;
                assert(links[j] == init[j]);
                assert(links[j].1.targets@[n]@ == job.1);
            } else {
                let n = x - dot_jobs(init, global).len();
                assert(tail[n] == job);
                assert(links[last].1.targets@[n]@ == job.1);
            }
        }
        if exists|j: int, n: int|
            0 <= j < links.len() && 0 <= n < links[j].1.targets@.len() && #[trigger] links[j].1.targets@[n]@ == job.1
                && links[j].0@ == job.0 && applied_link_type(links[j].1, global) == job.2 {
            let (j, n) = choose|j: int, n: int|
                0 <= j < links.len() && 0 <= n < links[j].1.targets@.len() && #[trigger] links[j].1.targets@[n]@ == job.1
                    && links[j].0@ == job.0 && applied_link_type(links[j].1, global) == job.2;
            if j < last {
                assert(init[j] == links[j]);
                assert(init[j].1.targets@[n]@ == job.1);
                let x = choose|x: int| 0 <= x < dot_jobs(init, global).len() && dot_jobs(init, global)[x] == job;
                assert(dot_jobs(links, global)[x] == job);
            } else {
                assert(tail[n] == job);
                assert(dot_jobs(links, global)[dot_jobs(init, global).len() + n] == job);
            }
        }
    }
}

/// The links to make for a dot are exactly one per target of each of its
/// links: from the link's source to that target, with the link's own type or
/// else the global one.
pub proof fn law_link_jobs_cover_every_target(links: Seq<(String, crate::encryption::LinkConfig)>, global: LinkType, job: (Seq<char>, Seq<char>, LinkType))
    ensures
        dot_jobs(links, global).contains(job) <==> exists|j: int, n: int|
            0 <= j < links.len() && 0 <= n < links[j].1.targets@.len() && #[trigger] links[j].1.targets@[n]@ == job.1
                && links[j].0@ == job.0 && applied_link_type(links[j].1, global) == job.2,
{
    lemma_dot_jobs(links, global, job);
}

proof fn lemma_dot_orphans(current: Set<Seq<char>>, dot: Seq<char>, links: Seq<(String, String)>, o: (Seq<char>, Seq<char>, Seq<char>))
    ensures
        dot_orphans(current, dot, links).contains(o) <==> (o.0 == dot && !current.contains(o.1) && exists|j: int|
            0 <= j < links.len() && #[trigger] links[j].0@ == o.1 && links[j].1@ == o.2),
    decreases links.len(),
{
    if links.len() > 0 {
        let init = links.drop_last();
        let last = links.len() - 1;
        lemma_dot_orphans(current, dot, init, o);
        let head = dot_orphans(current, dot, init);
        let tail = if current.contains(links.last().0@) {
            Seq::<(Seq<char>, Seq<char>, Seq<char>)>::empty()
        } else {
            seq![(dot, links.last().0@, links.last().1@)]
        };
        assert(dot_orphans(current, dot, links) == head + tail);
        if dot_orphans(current, dot, links).contains(o) {
            let x = choose|x: int| 0 <= x < (head + tail).len() && (head + tail)[x] == o;
            if x < head.len() {
                assert(head[x] == o);
                let j = choose|j: int| 0 <= j < init.len() && #[trigger] init[j].0@ == o.1 && init[j].1@ == o.2;
                assert(links[j] == init[j]);
            } else {
                assert(tail[x - head.len()] == o);
                assert(links[last].0@ == o.1);
            }
        }
        if o.0 == dot && !current.contains(o.1) && exists|j: int| 0 <= j < links.len() && #[trigger] links[j].0@ == o.1 && links[j].1@ == o.2 {
            let j = choose|j: int| 0 <= j < links.len() && #[trigger] links[j].0@ == o.1 && links[j].1@ == o.2;
            if j < last {
                assert(init[j] == links[j]);
                let x = choose|x: int| 0 <= x < head.len() && head[x] == o;
                assert((head + tail)[x] == o);
            } else {
                assert((head + tail)[head.len() as int] == o);
            }
        }
    }
}

proof fn lemma_orphans(current: Set<Seq<char>>, linked: Seq<(String, Vec<(String, String)>)>, selected: Set<Seq<char>>, o: (Seq<char>, Seq<char>, Seq<char>))
    ensures
        orphans(current, linked, selected).contains(o) <==> (selected.contains(o.0) && !current.contains(o.1) && exists|i: int, j: int|
            0 <= i < linked.len() && 0 <= j < linked[i].1@.len() && linked[i].0@ == o.0
                && #[trigger] linked[i].1@[j].0@ == o.1 && linked[i].1@[j].1@ == o.2),
    decreases linked.len(),
{
    if linked.len() > 0 {
        let init = linked.drop_last();
        let last = linked.len() - 1;
        lemma_orphans(current, init, selected, o);
        lemma_dot_orphans(current, linked[last].0@, linked[last].1@, o);
        let head = orphans(current, init, selected);
        let tail = if selected.contains(linked.last().0@) {
            dot_orphans(current, linked.last().0@, linked.last().1@)
        } else {
            Seq::empty()
        };
        assert(orphans(current, linked, selected) == head + tail);
        if orphans(current, linked, selected).contains(o) {
            let x = choose|x: int| 0 <= x < (head + tail).len() && (head + tail)[x] == o;
            if x < head.len() {
                assert(head[x] == o);
                let (i, j) = choose|i: int, j: int|
                    0 <= i < init.len() && 0 <= j < init[i].1@.len() && init[i].0@ == o.0
                        && #[trigger] init[i].1@[j].0@ == o.1 && init[i].1@[j].1@ == o.2;
                assert(linked[i] == init[i]);
                assert(linked[i].1@[j].0@ == o.1);
            } else {
                assert(tail[x - head.len()] == o);
                assert(tail.contains(o));
                let j = choose|j: int| 0 <= j < linked[last].1@.len() && #[trigger] linked[last].1@[j].0@ == o.1 && linked[last].1@[j].1@ == o.2;
                assert(linked[last].1@[j].0@ == o.1);
            }
        }
        if selected.contains(o.0) && !current.contains(o.1) && exists|i: int, j: int|
            0 <= i < linked.len() && 0 <= j < linked[i].1@.len() && linked[i].0@ == o.0
                && #[trigger] linked[i].1@[j].0@ == o.1 && linked[i].1@[j].1@ == o.2 {
            let (i, j) = choose|i: int, j: int|
                0 <= i < linked.len() && 0 <= j < linked[i].1@.len() && linked[i].0@ == o.0
                    && #[trigger] linked[i].1@[j].0@ == o.1 && linked[i].1@[j].1@ == o.2;
            if i < last {
                assert(init[i] == linked[i]);
                assert(init[i].1@[j].0@ == o.1);
                let x = choose|x: int| 0 <= x < head.len() && head[x] == o;
                assert((head + tail)[x] == o);
            } else {
                assert(linked[last].1@[j].0@ == o.1);
                assert(tail.contains(o));
                let x = choose|x: int| 0 <= x < tail.len() && tail[x] == o;
                assert((head + tail)[head.len() + x] == o);
            }
        }
    }
}

/// The orphans are exactly the recorded links of the selected dots whose
/// target no dot asks for any more: each such link, with its dot, target and
/// source, and no other.
pub proof fn law_orphans_are_unrequested_links(
    current: Set<Seq<char>>,
    linked: Seq<(String, Vec<(String, String)>)>,
    selected: Set<Seq<char>>,
    o: (Seq<char>, Seq<char>, Seq<char>),
)
    ensures
        orphans(current, linked, selected).contains(o) <==> (selected.contains(o.0) && !current.contains(o.1) && exists|i: int, j: int|
            0 <= i < linked.len() && 0 <= j < linked[i].1@.len() && linked[i].0@ == o.0
                && #[trigger] linked[i].1@[j].0@ == o.1 && linked[i].1@[j].1@ == o.2),
{
    lemma_orphans(current, linked, selected, o);
}

/// The links of a dot that are recorded are those that were made: a target
/// is recorded exactly when some link to it was made, and it is recorded with
/// the source of the last link to it that was made.
pub proof fn law_made_links(attempts: Seq<LinkAttempt>, to: Seq<char>, i: int)
    ensures
        made_links(attempts).contains_key(to) <==> exists|k: int| 0 <= k < attempts.len() && #[trigger] attempts[k].made && attempts[k].to@ == to,
        (0 <= i < attempts.len() && attempts[i].made && attempts[i].to@ == to
            && forall|k: int| i < k < attempts.len() ==> !(#[trigger] attempts[k].made && attempts[k].to@ == to))
            ==> made_links(attempts)[to] == attempts[i].from@,
    decreases attempts.len(),
{
    if attempts.len() > 0 {
        let init = attempts.drop_last();
        let last = attempts.len() - 1;
        law_made_links(init, to, i);
        if made_links(attempts).contains_key(to) {
            if made_links(init).contains_key(to) {
                let k = choose|k: int| 0 <= k < init.len() && #[trigger] init[k].made && init[k].to@ == to;
                assert(attempts[k] == init[k]);
            } else {
                assert(attempts[last].made && attempts[last].to@ == to);
            }
        }
        if exists|k: int| 0 <= k < attempts.len() && #[trigger] attempts[k].made && attempts[k].to@ == to {
            let k = choose|k: int| 0 <= k < attempts.len() && #[trigger] attempts[k].made && attempts[k].to@ == to;
            if k < last {
                assert(init[k] == attempts[k]);
            }
        }
        if 0 <= i < attempts.len() && attempts[i].made && attempts[i].to@ == to
            && forall|k: int| i < k < attempts.len() ==> !(#[trigger] attempts[k].made && attempts[k].to@ == to) {
            if i < last {
                assert(init[i] == attempts[i]);
                assert forall|k: int| i < k < init.len() implies !(#[trigger] init[k].made && init[k].to@ == to) by {
                    assert(init[k] == attempts[k]);
                }
                assert(!(attempts[last].made && attempts[last].to@ == to));
            }
        }
    }
}

/// After a run, a dot is recorded exactly when some link of it was made, and
/// it is recorded with the links that its last such entry made.
pub proof fn law_linked_after_run(dots: Seq<(String, Vec<LinkAttempt>)>, d: Seq<char>, i: int)
    ensures
        linked_after_run(dots).contains_key(d) <==> exists|k: int| 0 <= k < dots.len() && dots[k].0@ == d && #[trigger] some_made(dots[k].1@),
        (0 <= i < dots.len() && dots[i].0@ == d && some_made(dots[i].1@)
            && forall|k: int| i < k < dots.len() ==> !(dots[k].0@ == d && #[trigger] some_made(dots[k].1@)))
            ==> linked_after_run(dots)[d] == made_links(dots[i].1@),
    decreases dots.len(),
{
    if dots.len() > 0 {
        let init = dots.drop_last();
        let last = dots.len() - 1;
        law_linked_after_run(init, d, i);
        if linked_after_run(dots).contains_key(d) {
            if linked_after_run(init).contains_key(d) {
                let k = choose|k: int| 0 <= k < init.len() && init[k].0@ == d && #[trigger] some_made(init[k].1@);
                assert(dots[k] == init[k]);
            } else {
                assert(some_made(dots[last].1@));
            }
        }
        if exists|k: int| 0 <= k < dots.len() && dots[k].0@ == d && #[trigger] some_made(dots[k].1@) {
            let k = choose|k: int| 0 <= k < dots.len() && dots[k].0@ == d && #[trigger] some_made(dots[k].1@);
            if k < last {
                assert(init[k] == dots[k]);
            }
        }
        if 0 <= i < dots.len() && dots[i].0@ == d && some_made(dots[i].1@)
            && forall|k: int| i < k < dots.len() ==> !(dots[k].0@ == d && #[trigger] some_made(dots[k].1@)) {
            if i < last {
                assert(init[i] == dots[i]);
                assert forall|k: int| i < k < init.len() implies !(init[k].0@ == d && #[trigger] some_made(init[k].1@)) by {
                    assert(init[k] == dots[k]);
                }
                assert(!(dots[last].0@ == d && some_made(dots[last].1@)));
            }
        }
    }
}

/// A dot counts as having made a link exactly when one of its attempts made
/// one.
pub proof fn law_some_made(attempts: Seq<LinkAttempt>)
    ensures
        some_made(attempts) <==> exists|m: int| 0 <= m < attempts.len() && #[trigger] attempts[m].made,
{
}

/// The failures that stop linking are exactly the failed orphan removals, in
/// the order they were met: each is among them, and nothing else is.
pub proof fn law_removal_failures(outcomes: Seq<OrphanRemoval>, e: Error)
    ensures
        removal_failures(outcomes).contains(e) <==> exists|i: int| 0 <= i < outcomes.len() && #[trigger] outcomes[i] == OrphanRemoval::Failed(e),
        removal_failures(outcomes).len() == 0 <==> forall|i: int| 0 <= i < outcomes.len() ==> !(#[trigger] outcomes[i] is Failed),
    decreases outcomes.len(),
{
    if outcomes.len() > 0 {
        let init = outcomes.drop_last();
        let last = outcomes.len() - 1;
        law_removal_failures(init, e);
        let head = removal_failures(init);
        let tail = match outcomes.last() {
            OrphanRemoval::Failed(x) => seq![x],
            _ => Seq::empty(),
        };
        assert(removal_failures(outcomes) == head + tail);
        if removal_failures(outcomes).contains(e) {
            let x = choose|x: int| 0 <= x < (head + tail).len() && (head + tail)[x] == e;
            if x < head.len() {
                assert(head[x] == e);
                let i = choose|i: int| 0 <= i < init.len() && #[trigger] init[i] == OrphanRemoval::Failed(e);
                assert(outcomes[i] == init[i]);
            } else {
                assert(tail[x - head.len()] == e);
                assert(outcomes[last] == OrphanRemoval::Failed(e));
            }
        }
        if exists|i: int| 0 <= i < outcomes.len() && #[trigger] outcomes[i] == OrphanRemoval::Failed(e) {
            let i = choose|i: int| 0 <= i < outcomes.len() && #[trigger] outcomes[i] == OrphanRemoval::Failed(e);
            if i < last {
                assert(init[i] == outcomes[i]);
                let x = choose|x: int| 0 <= x < head.len() && head[x] == e;
                assert((head + tail)[x] == e);
            } else {
                assert((head + tail)[head.len() as int] == e);
            }
        }
        if removal_failures(outcomes).len() == 0 {
            assert forall|i: int| 0 <= i < outcomes.len() implies !(#[trigger] outcomes[i] is Failed) by {
                if i < last {
                    assert(init[i] == outcomes[i]);
                }
            }
        }
        if forall|i: int| 0 <= i < outcomes.len() ==> !(#[trigger] outcomes[i] is Failed) {
            assert forall|i: int| 0 <= i < init.len() implies !(#[trigger] init[i] is Failed) by {
                assert(init[i] == outcomes[i]);
            }
            assert(!(outcomes[last] is Failed));
        }
    }
}

/// The bytes that count against text: all but the visible ASCII characters,
/// the space, tab, line feed and carriage return.
pub proof fn law_non_printable_bytes(b: u8)
    ensures
        is_non_printable(b) <==> !(0x20 <= b <= 0x7e || b == 0x09 || b == 0x0a || b == 0x0d),
{
}

/// The non-printable bytes of two pieces of data put together are those of
/// each: a byte counts one when it is non-printable and nothing otherwise.
pub proof fn law_non_printable_count_adds(a: Seq<u8>, b: Seq<u8>, x: u8)
    ensures
        non_printable_count(a + b) == non_printable_count(a) + non_printable_count(b),
        non_printable_count(Seq::empty()) == 0,
        non_printable_count(seq![x]) == if is_non_printable(x) { 1nat } else { 0nat },
        non_printable_count(a) <= a.len(),
    decreases b.len(),
{
    assert(seq![x].drop_last() =~= Seq::<u8>::empty());
    if b.len() > 0 {
        law_non_printable_count_adds(a, b.drop_last(), x);
        assert((a + b).drop_last() =~= a + b.drop_last());
        assert((a + b).last() == b.last());
    } else {
        assert(a + b =~= a);
    }
    lemma_count_bounded(a);
}

proof fn lemma_count_bounded(a: Seq<u8>)
    ensures
        non_printable_count(a) <= a.len(),
    decreases a.len(),
{
    if a.len() > 0 {
        lemma_count_bounded(a.drop_last());
    }
}

/// Data looks encrypted exactly when it starts with the age armor header, or
/// is not empty and more than a fifth of its bytes are non-printable; in
/// particular empty data never does.
pub proof fn law_likely_encrypted_threshold(data: Seq<u8>)
    ensures
        likely_encrypted(data) <==> (starts_with_age_header(data) || (data.len() > 0 && 5 * non_printable_count(data) > data.len())),
        data.len() == 0 ==> !likely_encrypted(data),
{
}

/// Adding a link to a dot adds exactly its jobs after those of the links
/// before it, one per target in order, each from the link's source to that
/// target with the type that applies; a dot without links has no jobs.
pub proof fn law_link_jobs_append(links: Seq<(String, crate::encryption::LinkConfig)>, link: (String, crate::encryption::LinkConfig), global: LinkType, n: int)
    ensures
        dot_jobs(Seq::empty(), global).len() == 0,
        dot_jobs(links.push(link), global).len() == dot_jobs(links, global).len() + link.1.targets@.len(),
        dot_jobs(links.push(link), global).subrange(0, dot_jobs(links, global).len() as int) == dot_jobs(links, global),
        0 <= n < link.1.targets@.len() ==> dot_jobs(links.push(link), global)[dot_jobs(links, global).len() + n]
            == (link.0@, link.1.targets@[n]@, applied_link_type(link.1, global)),
{
    assert(links.push(link).drop_last() =~= links);
    assert(dot_jobs(links.push(link), global).subrange(0, dot_jobs(links, global).len() as int) =~= dot_jobs(links, global));
}

} // verus!
