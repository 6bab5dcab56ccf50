//! What merging and resolving capabilities does, stated over the links,
//! installs and dependencies of the inputs.

use vstd::prelude::*;

use crate::capabilities::{
    CapabilitiesSpec, EnhancedLinkTarget, InstallsSpec, LinksComplex, SelectorOutcome, applying, canonical_link,
    enhanced_targets, merge_all, merge_capabilities, merge_optional_capabilities, resolved_capabilities,
    selector_errors, some_selector_failed, empty_capabilities, CapabilitiesComplex, canonical_capabilities,
    distinct_complex_sources,
};
use crate::assoc::{lemma_entries_view_dom, lemma_entries_view_value};
use crate::paths::path_set;

verus! {

/// The capabilities link the source `k`.
pub open spec fn links_source(c: CapabilitiesSpec, k: Seq<char>) -> bool {
    c.links matches Some(m) && m.contains_key(k)
}

/// The capabilities link the source `k` to the target `t`.
pub open spec fn links_target(c: CapabilitiesSpec, k: Seq<char>, t: Seq<char>) -> bool {
    c.links matches Some(m) && m.contains_key(k) && m[k].targets.contains(t)
}

/// The dependencies that an install section carries along: those of a
/// command, none otherwise.
pub open spec fn install_depends(i: Option<InstallsSpec>) -> Set<Seq<char>> {
    match i {
        Some(InstallsSpec::Full { depends, .. }) => depends,
        _ => Set::empty(),
    }
}

/// Merging keeps every link of either side, with all its targets.
proof fn lemma_merge_step_keeps_links(x: Option<CapabilitiesSpec>, y: CapabilitiesSpec, k: Seq<char>, t: Seq<char>)
    ensures
        merge_optional_capabilities(x, Some(y)) is Some,
        (x matches Some(xc) && links_source(xc, k)) || links_source(y, k) ==> links_source(
            merge_optional_capabilities(x, Some(y))->0,
            k,
        ),
        (x matches Some(xc) && links_target(xc, k, t)) || links_target(y, k, t) ==> links_target(
            merge_optional_capabilities(x, Some(y))->0,
            k,
            t,
        ),
{
}

/// Merging one after the other keeps every link met on the way.
proof fn lemma_merge_all_keeps_links(start: Option<CapabilitiesSpec>, items: Seq<CapabilitiesSpec>, k: Seq<char>, t: Seq<char>)
    ensures
        (start matches Some(s) && links_source(s, k)) ==> (merge_all(start, items) matches Some(r) && links_source(r, k)),
        (start matches Some(s) && links_target(s, k, t)) ==> (merge_all(start, items) matches Some(r) && links_target(r, k, t)),
        forall|i: int| 0 <= i < items.len() && links_source(#[trigger] items[i], k) ==> (merge_all(start, items) matches Some(r) && links_source(r, k)),
        forall|i: int| 0 <= i < items.len() && links_target(#[trigger] items[i], k, t) ==> (merge_all(start, items) matches Some(r) && links_target(r, k, t)),
    decreases items.len(),
{
    if items.len() > 0 {
        let init = items.drop_last();
        lemma_merge_all_keeps_links(start, init, k, t);
        lemma_merge_step_keeps_links(merge_all(start, init), items.last(), k, t);
        assert forall|i: int| 0 <= i < items.len() && links_source(#[trigger] items[i], k) implies (merge_all(start, items) matches Some(r) && links_source(r, k)) by {
            if i < items.len() - 1 {
                assert(init[i] == items[i]);
            }
        }
        assert forall|i: int| 0 <= i < items.len() && links_target(#[trigger] items[i], k, t) implies (merge_all(start, items) matches Some(r) && links_target(r, k, t)) by {
            if i < items.len() - 1 {
                assert(init[i] == items[i]);
            }
        }
    }
}

/// An applying selector's capabilities are among those merged for its kind.
proof fn lemma_applying_contains<E>(selectors: Seq<SelectorOutcome<E>>, i: int)
    requires
        0 <= i < selectors.len(),
        selectors[i].applies == Ok::<bool, Vec<E>>(true),
    ensures
        exists|j: int| 0 <= j < applying(selectors, selectors[i].global).len()
            && #[trigger] applying(selectors, selectors[i].global)[j] == selectors[i].capabilities@,
    decreases selectors.len(),
{
    let g = selectors[i].global;
    let init = selectors.drop_last();
    if i == selectors.len() - 1 {
        let j = applying(init, g).len() as int;
        assert(applying(selectors, g)[j] == selectors[i].capabilities@);
    } else {
        assert(init[i] == selectors[i]);
        lemma_applying_contains(init, i);
        let j = choose|j: int| 0 <= j < applying(init, g).len() && #[trigger] applying(init, g)[j] == selectors[i].capabilities@;
        assert(applying(selectors, g)[j] == applying(init, g)[j]);
    }
}

/// Every capability merged for a kind comes from a selector of that kind that
/// applies, and they are merged in the selectors' order.
proof fn lemma_applying_comes_from<E>(selectors: Seq<SelectorOutcome<E>>, g: bool, j: int)
    requires
        0 <= j < applying(selectors, g).len(),
    ensures
        exists|i: int| 0 <= i < selectors.len() && selectors[i].applies == Ok::<bool, Vec<E>>(true)
            && selectors[i].global == g && #[trigger] selectors[i].capabilities@ == applying(selectors, g)[j],
    decreases selectors.len(),
{
    let init = selectors.drop_last();
    if j < applying(init, g).len() {
        lemma_applying_comes_from(init, g, j);
        let i = choose|i: int| 0 <= i < init.len() && init[i].applies == Ok::<bool, Vec<E>>(true)
            && init[i].global == g && #[trigger] init[i].capabilities@ == applying(init, g)[j];
        assert(selectors[i] == init[i]);
        assert(applying(selectors, g)[j] == applying(init, g)[j]);
    } else {
        let i = selectors.len() - 1;
        assert(selectors[i].capabilities@ == applying(selectors, g)[j]);
    }
}

/// The capabilities of a dot are those of its applying selectors merged one
/// after the other: merging a list that grows by one merges the new item into
/// what the list gave before, and an empty list gives its start unchanged.
pub proof fn law_merge_all_folds_in_order(start: Option<CapabilitiesSpec>, items: Seq<CapabilitiesSpec>, item: CapabilitiesSpec)
    ensures
        merge_all(start, Seq::empty()) == start,
        merge_all(start, items.push(item)) == merge_optional_capabilities(merge_all(start, items), Some(item)),
{
    assert(items.push(item).drop_last() =~= items);
}

/// Exactly the selectors that apply contribute: each one's capabilities are
/// merged, the global ones among the global, the others among the others,
/// and nothing else is merged.
pub proof fn law_applying_selectors_are_merged<E>(selectors: Seq<SelectorOutcome<E>>, i: int, g: bool, j: int)
    ensures
        (0 <= i < selectors.len() && selectors[i].applies == Ok::<bool, Vec<E>>(true)) ==> exists|m: int|
            0 <= m < applying(selectors, selectors[i].global).len()
                && #[trigger] applying(selectors, selectors[i].global)[m] == selectors[i].capabilities@,
        0 <= j < applying(selectors, g).len() ==> exists|n: int|
            0 <= n < selectors.len() && selectors[n].applies == Ok::<bool, Vec<E>>(true) && selectors[n].global == g
                && #[trigger] selectors[n].capabilities@ == applying(selectors, g)[j],
{
    if 0 <= i < selectors.len() && selectors[i].applies == Ok::<bool, Vec<E>>(true) {
        lemma_applying_contains(selectors, i);
    }
    if 0 <= j < applying(selectors, g).len() {
        lemma_applying_comes_from(selectors, g, j);
    }
}

/// No link of an applying selector is lost: every source that an applying
/// selector links, global or not, is linked by the dot's capabilities, to
/// every target the selector gives it.
pub proof fn law_resolved_keeps_every_applying_link<E>(selectors: Seq<SelectorOutcome<E>>, i: int, k: Seq<char>, t: Seq<char>)
    requires
        0 <= i < selectors.len(),
        selectors[i].applies == Ok::<bool, Vec<E>>(true),
    ensures
        links_source(selectors[i].capabilities@, k) ==> links_source(resolved_capabilities(selectors), k),
        links_target(selectors[i].capabilities@, k, t) ==> links_target(resolved_capabilities(selectors), k, t),
{
    let globals = applying(selectors, true);
    let locals = applying(selectors, false);
    lemma_applying_contains(selectors, i);
    let g = selectors[i].global;
    let j = choose|j: int| 0 <= j < applying(selectors, g).len() && #[trigger] applying(selectors, g)[j] == selectors[i].capabilities@;
    lemma_merge_all_keeps_links(None, globals, k, t);
    lemma_merge_all_keeps_links(merge_all(None, globals), locals, k, t);
    if g {
        assert(globals[j] == selectors[i].capabilities@);
    } else {
        assert(locals[j] == selectors[i].capabilities@);
    }
}

/// Installs merged: a later command replaces the earlier install section and
/// keeps the earlier command's dependencies besides its own; a later
/// `installs: false` clears an earlier section; a side without installs
/// leaves the other's as it is.
pub proof fn law_merge_installs(a: CapabilitiesSpec, b: CapabilitiesSpec)
    ensures
        b.installs is None ==> merge_capabilities(a, b).installs == a.installs,
        a.installs is None ==> merge_capabilities(a, b).installs == b.installs,
        (a.installs is Some && b.installs matches Some(InstallsSpec::Disabled(_))) ==> merge_capabilities(a, b).installs is None,
        (a.installs is Some && b.installs matches Some(InstallsSpec::Full { .. })) ==> ({
            let later = b.installs->0;
            &&& merge_capabilities(a, b).installs matches Some(InstallsSpec::Full { cmd, depends })
            &&& merge_capabilities(a, b).installs->0->Full_cmd == later->Full_cmd
            &&& merge_capabilities(a, b).installs->0->Full_depends == later->Full_depends.union(install_depends(a.installs))
        }),
{
    if a.installs is Some && b.installs matches Some(InstallsSpec::Full { .. }) {
        match a.installs {
            Some(InstallsSpec::Disabled(_)) => {
                assert(b.installs->0->Full_depends.union(Set::empty()) =~= b.installs->0->Full_depends);
            },
            _ => {},
        }
    }
}

/// Links merged: the sources of both sides are linked, each to the targets it
/// has on either side; a source's link type is the later side's override
/// where it gives one, and the earlier one otherwise.
pub proof fn law_merge_links(a: CapabilitiesSpec, b: CapabilitiesSpec, k: Seq<char>, t: Seq<char>)
    ensures
        b.links is None ==> merge_capabilities(a, b).links == a.links,
        a.links is None ==> merge_capabilities(a, b).links == b.links,
        (a.links is Some && b.links is Some) ==> ({
            let x = a.links->0;
            let y = b.links->0;
            let r = merge_capabilities(a, b).links->0;
            &&& merge_capabilities(a, b).links is Some
            &&& r.contains_key(k) <==> (x.contains_key(k) || y.contains_key(k))
            &&& r.contains_key(k) ==> (r[k].targets.contains(t) <==> ((x.contains_key(k) && x[k].targets.contains(t)) || (y.contains_key(k) && y[k].targets.contains(t))))
            &&& (y.contains_key(k) && y[k].link_type is Some) ==> r[k].link_type == y[k].link_type
            &&& (x.contains_key(k) && !(y.contains_key(k) && y[k].link_type is Some)) ==> r[k].link_type == x[k].link_type
            &&& (!x.contains_key(k) && y.contains_key(k)) ==> r[k].link_type == y[k].link_type
        }),
{
}

/// Dependencies merged: those of both sides.
pub proof fn law_merge_depends(a: CapabilitiesSpec, b: CapabilitiesSpec, d: Seq<char>)
    ensures
        (a.depends is Some || b.depends is Some) ==> ({
            &&& merge_capabilities(a, b).depends is Some
            &&& merge_capabilities(a, b).depends->0.contains(d) <==> ((a.depends matches Some(x) && x.contains(d)) || (b.depends matches Some(y) && y.contains(d)))
        }),
        (a.depends is None && b.depends is None) ==> merge_capabilities(a, b).depends is None,
{
}

/// Whether an entry of an enhanced link map gives the target `t`: its single
/// target, one of its targets, or (with only a type) its own path.
pub open spec fn entry_gives_target(entry: (String, EnhancedLinkTarget), t: Seq<char>) -> bool {
    match entry.1 {
        EnhancedLinkTarget::Single { target, .. } => target@ == t,
        EnhancedLinkTarget::Multiple { targets, .. } => exists|n: int| 0 <= n < targets@.len() && #[trigger] targets@[n]@ == t,
        EnhancedLinkTarget::TypeOnly { .. } => entry.0@ == t,
    }
}

/// The link type override written in an enhanced link map entry.
pub open spec fn entry_written_link_type(entry: (String, EnhancedLinkTarget)) -> Option<crate::config::LinkType> {
    match entry.1 {
        EnhancedLinkTarget::Single { link_type, .. } => link_type,
        EnhancedLinkTarget::Multiple { link_type, .. } => link_type,
        EnhancedLinkTarget::TypeOnly { link_type } => link_type,
    }
}

proof fn lemma_enhanced_targets(entries: Seq<(String, EnhancedLinkTarget)>, t: Seq<char>)
    ensures
        enhanced_targets(entries).contains(t) <==> exists|i: int| 0 <= i < entries.len() && #[trigger] entry_gives_target(entries[i], t),
    decreases entries.len(),
{
    if entries.len() > 0 {
        let init = entries.drop_last();
        lemma_enhanced_targets(init, t);
        if enhanced_targets(entries).contains(t) {
            if enhanced_targets(init).contains(t) {
                let i = choose|i: int| 0 <= i < init.len() && #[trigger] entry_gives_target(init[i], t);
                assert(entries[i] == init[i]);
            } else {
                let last = entries.last();
                assert(entry_gives_target(entries[entries.len() - 1], t)) by {
                    match last.1 {
                        EnhancedLinkTarget::Multiple { targets, .. } => {
                            let n = choose|n: int| 0 <= n < targets@.len() && #[trigger] targets@[n]@ == t;
                        },
                        _ => {},
                    }
                }
            }
        }
        if exists|i: int| 0 <= i < entries.len() && #[trigger] entry_gives_target(entries[i], t) {
            let i = choose|i: int| 0 <= i < entries.len() && #[trigger] entry_gives_target(entries[i], t);
            if i < entries.len() - 1 {
                assert(init[i] == entries[i]);
            } else {
                match entries[i].1 {
                    EnhancedLinkTarget::Multiple { targets, .. } => {
                        let n = choose|n: int| 0 <= n < targets@.len() && #[trigger] targets@[n]@ == t;
                        assert(crate::paths::path_set(targets@).contains(t));
                    },
                    _ => {},
                }
            }
        }
    }
}

/// A link written in any form means the targets written in it and the link
/// type written in it: a single path or a list of paths carries no link type
/// (the global one applies); an enhanced configuration keeps its own; an
/// enhanced map gives every target of every entry, and the link type written
/// in its last entry.
pub proof fn law_canonical_link_forms(link: LinksComplex, t: Seq<char>)
    ensures
        link matches LinksComplex::One(target) ==> {
            &&& canonical_link(link).link_type is None
            &&& canonical_link(link).targets.contains(t) <==> t == target@
        },
        link matches LinksComplex::Many(targets) ==> {
            &&& canonical_link(link).link_type is None
            &&& canonical_link(link).targets.contains(t) <==> exists|n: int| 0 <= n < targets@.len() && #[trigger] targets@[n]@ == t
        },
        link matches LinksComplex::Enhanced(config) ==> {
            &&& canonical_link(link).link_type == config.link_type
            &&& canonical_link(link).targets.contains(t) <==> exists|n: int| 0 <= n < config.targets@.len() && #[trigger] config.targets@[n]@ == t
        },
        link matches LinksComplex::EnhancedMap(entries) ==> {
            &&& canonical_link(link).targets.contains(t) <==> exists|i: int| 0 <= i < entries@.len() && #[trigger] entry_gives_target(entries@[i], t)
            &&& entries@.len() == 0 ==> canonical_link(link).link_type is None
            &&& entries@.len() > 0 ==> canonical_link(link).link_type == entry_written_link_type(entries@.last())
        },
{
    match link {
        LinksComplex::EnhancedMap(entries) => {
            lemma_enhanced_targets(entries@, t);
        },
        _ => {},
    }
}

/// The evaluation of a selector failed, with `e` as its error number `n`.
pub open spec fn failed_with<E>(applies: Result<bool, Vec<E>>, n: int, e: E) -> bool {
    applies matches Err(es) && 0 <= n < es@.len() && es@[n] == e
}

/// Resolving fails exactly when some selector could not be evaluated, and
/// the errors returned are exactly those of the failed selectors: every error
/// of every failed selector, and no other.
pub proof fn law_selector_errors<E>(selectors: Seq<SelectorOutcome<E>>, e: E)
    ensures
        some_selector_failed(selectors) <==> exists|i: int| 0 <= i < selectors.len() && #[trigger] selectors[i].applies is Err,
        selector_errors(selectors).contains(e) <==> exists|i: int, n: int|
            0 <= i < selectors.len() && #[trigger] failed_with(selectors[i].applies, n, e),
    decreases selectors.len(),
{
    if selectors.len() > 0 {
        let init = selectors.drop_last();
        let last = selectors.len() - 1;
        law_selector_errors(init, e);
        let head = selector_errors(init);
        let tail = match selectors.last().applies {
            Ok(_) => Seq::<E>::empty(),
            Err(errors) => errors@,
        };
        assert(selector_errors(selectors) == head + tail);
        if selector_errors(selectors).contains(e) {
            let x = choose|x: int| 0 <= x < (head + tail).len() && (head + tail)[x] == e;
            if x < head.len() {
                assert(head[x] == e);
                let (i, n) = choose|i: int, n: int|
                    0 <= i < init.len() && #[trigger] failed_with(init[i].applies, n, e);
                assert(selectors[i] == init[i]);
            } else {
                assert(tail[x - head.len()] == e);
                assert(failed_with(selectors[last].applies, x - head.len(), e));
            }
        }
        if exists|i: int, n: int|
            0 <= i < selectors.len() && #[trigger] failed_with(selectors[i].applies, n, e) {
            let (i, n) = choose|i: int, n: int|
                0 <= i < selectors.len() && #[trigger] failed_with(selectors[i].applies, n, e);
            if i < last {
                assert(init[i] == selectors[i]);
                let x = choose|x: int| 0 <= x < head.len() && head[x] == e;
                assert((head + tail)[x] == e);
            } else {
                assert((head + tail)[head.len() + n] == e);
            }
        }
    }
}

/// A dot with no applying selector has no capabilities at all.
pub proof fn law_nothing_applies<E>(selectors: Seq<SelectorOutcome<E>>)
    requires
        forall|i: int| 0 <= i < selectors.len() ==> !(#[trigger] selectors[i].applies == Ok::<bool, Vec<E>>(true)),
    ensures
        resolved_capabilities(selectors) == empty_capabilities(),
        empty_capabilities().links is None && empty_capabilities().installs is None && empty_capabilities().depends is None,
{
    assert(applying(selectors, true).len() == 0) by {
        if applying(selectors, true).len() > 0 {
            lemma_applying_comes_from(selectors, true, 0);
        }
    }
    assert(applying(selectors, false).len() == 0) by {
        if applying(selectors, false).len() > 0 {
            lemma_applying_comes_from(selectors, false, 0);
        }
    }
}

/// Written capabilities made canonical keep their installs and dependencies
/// as written, and link exactly the sources written, each with the canonical
/// form of the link written for it.
pub proof fn law_canonical_capabilities(value: CapabilitiesComplex, k: Seq<char>, i: int)
    ensures
        canonical_capabilities(value).installs == (match value.installs {
            Some(x) => Some(x@),
            None => None::<InstallsSpec>,
        }),
        canonical_capabilities(value).depends == (match value.depends {
            Some(d) => Some(path_set(d@)),
            None => None::<Set<Seq<char>>>,
        }),
        value.links is None ==> canonical_capabilities(value).links is None,
        value.links matches Some(written) ==> {
            &&& canonical_capabilities(value).links is Some
            &&& canonical_capabilities(value).links->0.contains_key(k) <==> exists|j: int| 0 <= j < written@.len() && #[trigger] written@[j].0@ == k
            &&& (distinct_complex_sources(written@) && 0 <= i < written@.len()) ==> canonical_capabilities(value).links->0[written@[i].0@] == canonical_link(written@[i].1)
        },
{
    match value.links {
        Some(written) => {
            lemma_entries_view_dom(written@, k);
            if distinct_complex_sources(written@) && 0 <= i < written@.len() {
                lemma_entries_view_value(written@, i);
            }
        },
        None => {},
    }
}

} // verus!
