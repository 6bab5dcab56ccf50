//! The canonical capabilities of a dot (its links, installs and
//! dependencies), how they are merged, and how they are built from the
//! forms that a `dot.yaml` may use.

use vstd::prelude::*;

use crate::config::LinkType;
use crate::encryption::{LinkConfig, LinkSpec};
use crate::assoc::{distinct_keys, entries_view, find_key, lemma_entries_view_dom, lemma_entries_view_update, lemma_entries_view_value};
use crate::paths::{distinct_paths, extend_paths, insert_path, path_set};

verus! {

/// The links of a dot: source path (relative to the dot) and its configuration.
pub type Links = Vec<(String, LinkConfig)>;

/// No source path occurs twice.
pub open spec fn distinct_sources(links: Seq<(String, LinkConfig)>) -> bool {
    distinct_keys(links)
}

/// No source path occurs twice, and no link names a target twice.
pub open spec fn links_wf(links: Seq<(String, LinkConfig)>) -> bool {
    &&& distinct_sources(links)
    &&& forall|i: int| 0 <= i < links.len() ==> (#[trigger] links[i]).1.wf()
}

/// The map from source path to link configuration that a list of links holds.
pub open spec fn links_view(links: Seq<(String, LinkConfig)>) -> Map<Seq<char>, LinkSpec> {
    entries_view(links)
}

/// Two configurations of the same source merged: the targets are joined, and
/// the link type of the second one wins where it has one.
pub open spec fn merge_link_spec(a: LinkSpec, b: LinkSpec) -> LinkSpec {
    LinkSpec {
        targets: a.targets.union(b.targets),
        link_type: if b.link_type is Some { b.link_type } else { a.link_type },
    }
}

/// Two link maps merged source by source.
pub open spec fn merge_link_maps(a: Map<Seq<char>, LinkSpec>, b: Map<Seq<char>, LinkSpec>) -> Map<Seq<char>, LinkSpec> {
    Map::new(
        |k: Seq<char>| a.contains_key(k) || b.contains_key(k),
        |k: Seq<char>|
            if a.contains_key(k) && b.contains_key(k) {
                merge_link_spec(a[k], b[k])
            } else if b.contains_key(k) {
                b[k]
            } else {
                a[k]
            },
    )
}

/// Merges `more` into `links`: targets of a source that both have are joined,
/// and its link type becomes the one of `more` where that one has an override;
/// a source only `more` has is added.
pub fn merge_links(links: &mut Links, more: Links)
    requires
        links_wf(old(links)@),
        links_wf(more@),
    ensures
        links_wf(final(links)@),
        links_view(final(links)@) == merge_link_maps(links_view(old(links)@), links_view(more@)),
{
    let ghost start = links_view(links@);
    let ghost all = more@;
    let mut more = more;
    let total: usize = more.len();
    let mut done: usize = 0;
    assert(links_view(all.take(0)) =~= Map::<Seq<char>, LinkSpec>::empty());
    assert(merge_link_maps(start, Map::empty()) =~= start);
    while more.len() > 0
        invariant
            links_wf(all),
            links_wf(links@),
            done <= all.len() == total,
            more@ == all.skip(done as int),
            links_view(links@) == merge_link_maps(start, links_view(all.take(done as int))),
        decreases more.len(),
    {
        let ghost processed = links_view(all.take(done as int));
        let ghost current = links_view(links@);
        assert(done < all.len());
        let (source, config) = more.remove(0);
        assert(all[done as int] == (source, config));
        let ghost k = source@;
        let ghost v = config@;
        assert(all.take(done + 1).drop_last() =~= all.take(done as int));
        assert(links_view(all.take(done + 1)) == processed.insert(k, v));
        assert(!processed.contains_key(k)) by {
            lemma_entries_view_dom(all.take(done as int), k);
            if processed.contains_key(k) {
                let j = choose|j: int| 0 <= j < done && #[trigger] all.take(done as int)[j].0@ == k;
                assert(all[j].0@ == k);
            }
        }
        match find_key(links, &source) {
            Some(i) => {
                proof {
                    lemma_entries_view_value(links@, i as int);
                }
                let ghost before_seq = links@;
                let (existing_source, mut existing) = links.remove(i);
                let ghost old_entry = existing@;
                extend_paths(&mut existing.targets, &config.targets);
                if config.link_type.is_some() {
                    existing.link_type = config.link_type;
                }
                assert(existing@ =~= merge_link_spec(old_entry, v));
                assert(existing.wf());
                links.insert(i, (existing_source, existing));
                assert(links@ =~= before_seq.update(i as int, (before_seq[i as int].0, existing)));
                assert forall|j: int| 0 <= j < links@.len() implies (#[trigger] links@[j]).1.wf() by {
                    if j != i {
                        assert(links@[j] == before_seq[j]);
                    }
                }
                proof {
                    lemma_entries_view_update(before_seq, i as int, existing);
                    assert(current.contains_key(k));
                    assert(start.contains_key(k));
                    assert(old_entry == start[k]);
                }
                assert(links_view(links@) == current.insert(k, merge_link_spec(start[k], v)));
            },
            None => {
                proof {
                    lemma_entries_view_dom(links@, k);
                }
                let ghost before_seq = links@;
                assert(config.wf());
                links.push((source, config));
                assert(links@.drop_last() =~= before_seq);
                assert forall|j: int| 0 <= j < links@.len() implies (#[trigger] links@[j]).1.wf() by {
                    if j < before_seq.len() {
                        assert(links@[j] == before_seq[j]);
                    }
                }
                assert(!start.contains_key(k));
                assert(links_view(links@) == current.insert(k, v));
            },
        }
        assert(merge_link_maps(start, processed.insert(k, v)) =~= current.insert(k, if start.contains_key(k) { merge_link_spec(start[k], v) } else { v }));
        done = done + 1;
        assert(more@ =~= all.skip(done as int));
    }
    assert(all.take(all.len() as int) =~= all);
}

/// What a dot installs.
#[derive(Debug, Clone, PartialEq, Eq)]
pub enum InstallsCanonical {
    /// Nothing is installed (`installs: false`).
    Disabled(bool),
    /// A command to run, with the dots it depends on.
    Full { cmd: String, depends: Vec<String> },
}

/// What an install section means.
#[verifier::ext_equal]
pub enum InstallsSpec {
    Disabled(bool),
    Full { cmd: Seq<char>, depends: Set<Seq<char>> },
}

impl View for InstallsCanonical {
    type V = InstallsSpec;

    open spec fn view(&self) -> InstallsSpec {
        match self {
            InstallsCanonical::Disabled(b) => InstallsSpec::Disabled(*b),
            InstallsCanonical::Full { cmd, depends } => InstallsSpec::Full { cmd: cmd@, depends: path_set(depends@) },
        }
    }
}

impl InstallsCanonical {
    /// Whether nothing is to be installed.
    pub fn is_none(&self) -> (r: bool)
        ensures
            r == (self is Disabled),
    {
        match self {
            InstallsCanonical::Disabled(_) => true,
            InstallsCanonical::Full { .. } => false,
        }
    }
}

/// The canonical capabilities of a dot.
#[derive(Debug, Clone)]
pub struct CapabilitiesCanonical {
    pub links: Option<Links>,
    pub installs: Option<InstallsCanonical>,
    pub depends: Option<Vec<String>>,
}

/// What a dot's capabilities mean.
#[verifier::ext_equal]
pub struct CapabilitiesSpec {
    pub links: Option<Map<Seq<char>, LinkSpec>>,
    pub installs: Option<InstallsSpec>,
    pub depends: Option<Set<Seq<char>>>,
}

impl View for CapabilitiesCanonical {
    type V = CapabilitiesSpec;

    open spec fn view(&self) -> CapabilitiesSpec {
        CapabilitiesSpec {
            links: match self.links {
                Some(l) => Some(links_view(l@)),
                None => None,
            },
            installs: match self.installs {
                Some(i) => Some(i@),
                None => None,
            },
            depends: match self.depends {
                Some(d) => Some(path_set(d@)),
                None => None,
            },
        }
    }
}

impl Default for CapabilitiesCanonical {
    fn default() -> (r: Self)
        ensures
            r.links is None,
            r.installs is None,
            r.depends is None,
    {
        CapabilitiesCanonical { links: None, installs: None, depends: None }
    }
}

/// The capabilities of a dot that says nothing.
pub open spec fn empty_capabilities() -> CapabilitiesSpec {
    CapabilitiesSpec { links: None, installs: None, depends: None }
}

impl CapabilitiesCanonical {
    /// Its links name no source twice, and no link names a target twice.
    pub open spec fn wf(&self) -> bool {
        self.links matches Some(l) ==> links_wf(l@)
    }
}

/// Links merged: where both have links they are merged source by source,
/// otherwise whichever has them.
pub open spec fn merge_optional_links(
    a: Option<Map<Seq<char>, LinkSpec>>,
    b: Option<Map<Seq<char>, LinkSpec>>,
) -> Option<Map<Seq<char>, LinkSpec>> {
    match (a, b) {
        (Some(x), Some(y)) => Some(merge_link_maps(x, y)),
        (Some(x), None) => Some(x),
        (None, y) => y,
    }
}

/// Installs merged. An explicit `Disabled` in the second clears the first; a
/// command in the second replaces the first's command and joins the
/// dependencies of both.
pub open spec fn merge_installs(a: Option<InstallsSpec>, b: Option<InstallsSpec>) -> Option<InstallsSpec> {
    match (a, b) {
        (Some(first), Some(second)) => match second {
            InstallsSpec::Disabled(_) => None,
            InstallsSpec::Full { cmd, depends } => Some(InstallsSpec::Full {
                cmd,
                depends: match first {
                    InstallsSpec::Disabled(_) => depends,
                    InstallsSpec::Full { depends: earlier, .. } => depends.union(earlier),
                },
            }),
        },
        (Some(first), None) => Some(first),
        (None, second) => second,
    }
}

/// Dependency sets merged: joined where both have one.
pub open spec fn merge_depends(a: Option<Set<Seq<char>>>, b: Option<Set<Seq<char>>>) -> Option<Set<Seq<char>>> {
    match (a, b) {
        (Some(x), Some(y)) => Some(x.union(y)),
        (Some(x), None) => Some(x),
        (None, y) => y,
    }
}

/// Two capabilities merged, the second taking precedence.
pub open spec fn merge_capabilities(a: CapabilitiesSpec, b: CapabilitiesSpec) -> CapabilitiesSpec {
    CapabilitiesSpec {
        links: merge_optional_links(a.links, b.links),
        installs: merge_installs(a.installs, b.installs),
        depends: merge_depends(a.depends, b.depends),
    }
}

impl CapabilitiesCanonical {
    /// Merges `other` into these capabilities, `other` taking precedence.
    pub fn merge(self, other: Self) -> (r: Self)
        requires
            self.wf(),
            other.wf(),
        ensures
            r.wf(),
            r@ == merge_capabilities(self@, other@),
    {
        let CapabilitiesCanonical { links: other_links, installs: other_installs, depends: other_depends } = other;
        let mut merged = self;

        let links = match merged.links {
            Some(mut self_links) => {
                match other_links {
                    Some(more) => {
                        merge_links(&mut self_links, more);
                    },
                    None => {},
                }
                Some(self_links)
            },
            None => other_links,
        };

        let installs = match merged.installs {
            Some(current) => match other_installs {
                Some(next) => match next {
                    InstallsCanonical::Disabled(_) => None,
                    InstallsCanonical::Full { cmd, depends } => {
                        let mut depends = depends;
                        match current {
                            InstallsCanonical::Disabled(_) => {},
                            InstallsCanonical::Full { depends: earlier, .. } => {
                                extend_paths(&mut depends, &earlier);
                            },
                        }
                        Some(InstallsCanonical::Full { cmd, depends })
                    },
                },
                None => Some(current),
            },
            None => other_installs,
        };

        let depends = match merged.depends {
            Some(mut d) => {
                match other_depends {
                    Some(more) => {
                        extend_paths(&mut d, &more);
                    },
                    None => {},
                }
                Some(d)
            },
            None => other_depends,
        };

        let r = CapabilitiesCanonical { links, installs, depends };
        assert(r@ =~= merge_capabilities(self@, other@));
        r
    }
}

/// Optional capabilities merged: where both are present they are merged,
/// otherwise whichever is present.
pub open spec fn merge_optional_capabilities(a: Option<CapabilitiesSpec>, b: Option<CapabilitiesSpec>) -> Option<CapabilitiesSpec> {
    match (a, b) {
        (Some(x), Some(y)) => Some(merge_capabilities(x, y)),
        (Some(x), None) => Some(x),
        (None, y) => y,
    }
}

/// The view of optional capabilities.
pub open spec fn optional_view(c: Option<CapabilitiesCanonical>) -> Option<CapabilitiesSpec> {
    match c {
        Some(x) => Some(x@),
        None => None,
    }
}

/// Merges two optional capabilities: where both are present they are merged
/// (the second taking precedence), otherwise whichever is present.
pub fn merge_optional(current: Option<CapabilitiesCanonical>, merge: Option<CapabilitiesCanonical>) -> (r: Option<CapabilitiesCanonical>)
    requires
        current matches Some(c) ==> c.wf(),
        merge matches Some(m) ==> m.wf(),
    ensures
        r matches Some(c) ==> c.wf(),
        optional_view(r) == merge_optional_capabilities(optional_view(current), optional_view(merge)),
{
    match current {
        Some(s) => match merge {
            Some(m) => Some(s.merge(m)),
            None => Some(s),
        },
        None => merge,
    }
}

/// A target of an enhanced link map entry.
#[derive(Debug, Clone)]
pub enum EnhancedLinkTarget {
    /// Single target with link type override
    Single { target: String, link_type: Option<LinkType> },
    /// Multiple targets with shared link type override
    Multiple { targets: Vec<String>, link_type: Option<LinkType> },
    /// Just the link type override (uses source path as target)
    TypeOnly { link_type: Option<LinkType> },
}

/// The forms a link may take in a `dot.yaml`.
#[derive(Debug, Clone)]
pub enum LinksComplex {
    /// Simple path specification (backward compatibility)
    One(String),
    /// Multiple paths (backward compatibility)
    Many(Vec<String>),
    /// Enhanced configuration with file management type
    Enhanced(LinkConfig),
    /// Map of path to enhanced configuration, in the order it was read
    EnhancedMap(Vec<(String, EnhancedLinkTarget)>),
}

/// The targets that one enhanced map entry contributes.
pub open spec fn enhanced_entry_targets(key: Seq<char>, target: EnhancedLinkTarget) -> Set<Seq<char>> {
    match target {
        EnhancedLinkTarget::Single { target, .. } => set![target@],
        EnhancedLinkTarget::Multiple { targets, .. } => path_set(targets@),
        EnhancedLinkTarget::TypeOnly { .. } => set![key],
    }
}

/// The link type override of one enhanced map entry.
pub open spec fn enhanced_entry_link_type(target: EnhancedLinkTarget) -> Option<LinkType> {
    match target {
        EnhancedLinkTarget::Single { link_type, .. } => link_type,
        EnhancedLinkTarget::Multiple { link_type, .. } => link_type,
        EnhancedLinkTarget::TypeOnly { link_type } => link_type,
    }
}

/// All targets of an enhanced map.
pub open spec fn enhanced_targets(entries: Seq<(String, EnhancedLinkTarget)>) -> Set<Seq<char>>
    decreases entries.len(),
{
    if entries.len() == 0 {
        Set::empty()
    } else {
        enhanced_targets(entries.drop_last()).union(enhanced_entry_targets(entries.last().0@, entries.last().1))
    }
}

/// The link type of an enhanced map: that of its last entry.
pub open spec fn enhanced_link_type(entries: Seq<(String, EnhancedLinkTarget)>) -> Option<LinkType> {
    if entries.len() == 0 {
        None
    } else {
        enhanced_entry_link_type(entries.last().1)
    }
}

/// The canonical configuration of a link, whatever form it was written in.
pub open spec fn canonical_link(link: LinksComplex) -> LinkSpec {
    match link {
        LinksComplex::One(target) => LinkSpec { targets: set![target@], link_type: None },
        LinksComplex::Many(targets) => LinkSpec { targets: path_set(targets@), link_type: None },
        LinksComplex::Enhanced(config) => config@,
        LinksComplex::EnhancedMap(entries) => LinkSpec {
            targets: enhanced_targets(entries@),
            link_type: enhanced_link_type(entries@),
        },
    }
}

/// The same paths, each once, in the order they first occur.
fn distinct_targets(targets: &Vec<String>) -> (r: Vec<String>)
    ensures
        path_set(r@) == path_set(targets@),
        distinct_paths(r@),
{
    let mut r: Vec<String> = Vec::new();
    extend_paths(&mut r, targets);
    assert(path_set(r@) =~= path_set(targets@));
    r
}

/// Turns a link written in any form into its canonical configuration, in
/// which no target occurs twice. An enhanced map is flattened: its targets
/// are joined, and the link type is that of its last entry.
pub fn canonical_link_config(link: LinksComplex) -> (r: LinkConfig)
    ensures
        r@ == canonical_link(link),
        r.wf(),
{
    match link {
        LinksComplex::One(target) => {
            let mut targets: Vec<String> = Vec::new();
            let ghost t = target@;
            targets.push(target);
            assert(path_set(targets@) =~= set![t]) by {
                assert(targets@[0]@ == t);
            }
            LinkConfig { targets, link_type: None }
        },
        LinksComplex::Many(targets) => LinkConfig { targets: distinct_targets(&targets), link_type: None },
        LinksComplex::Enhanced(config) => {
            let r = LinkConfig { targets: distinct_targets(&config.targets), link_type: config.link_type };
            assert(r@ =~= config@);
            r
        },
        LinksComplex::EnhancedMap(entries) => {
            let ghost all = entries@;
            let total: usize = entries.len();
            let mut entries = entries;
            let mut all_targets: Vec<String> = Vec::new();
            let mut link_type: Option<LinkType> = None;
            let mut done: usize = 0;
            assert(path_set(all_targets@) =~= enhanced_targets(all.take(0)));
            while entries.len() > 0
                invariant
                    done <= all.len() == total,
                    entries@ == all.skip(done as int),
                    path_set(all_targets@) == enhanced_targets(all.take(done as int)),
                    distinct_paths(all_targets@),
                    link_type == enhanced_link_type(all.take(done as int)),
                decreases entries.len(),
            {
                assert(done < all.len());
                let (target_path, enhanced) = entries.remove(0);
                assert(all[done as int] == (target_path, enhanced));
                assert(all.take(done + 1).drop_last() =~= all.take(done as int));
                let ghost key = target_path@;
                let ghost entry = enhanced;
                match enhanced {
                    EnhancedLinkTarget::Single { target, link_type: lt } => {
                        let ghost t = target@;
                        insert_path(&mut all_targets, target);
                        assert(set![t] =~= Set::<Seq<char>>::empty().insert(t));
                        link_type = lt;
                    },
                    EnhancedLinkTarget::Multiple { targets, link_type: lt } => {
                        extend_paths(&mut all_targets, &targets);
                        link_type = lt;
                    },
                    EnhancedLinkTarget::TypeOnly { link_type: lt } => {
                        insert_path(&mut all_targets, target_path);
                        assert(set![key] =~= Set::<Seq<char>>::empty().insert(key));
                        link_type = lt;
                    },
                }
                assert(path_set(all_targets@) =~= enhanced_targets(all.take(done + 1)));
                done = done + 1;
                assert(entries@ =~= all.skip(done as int));
            }
            assert(all.take(all.len() as int) =~= all);
            LinkConfig { targets: all_targets, link_type }
        },
    }
}

/// The capabilities of a dot as written, before links are made canonical.
#[derive(Debug, Clone)]
pub struct CapabilitiesComplex {
    pub links: Option<Vec<(String, LinksComplex)>>,
    pub installs: Option<InstallsCanonical>,
    pub depends: Option<Vec<String>>,
}

impl View for LinksComplex {
    type V = LinkSpec;

    open spec fn view(&self) -> LinkSpec {
        canonical_link(*self)
    }
}

/// The map from source path to canonical link configuration that written
/// links describe.
pub open spec fn complex_links_view(links: Seq<(String, LinksComplex)>) -> Map<Seq<char>, LinkSpec> {
    entries_view(links)
}

/// No source path is written twice.
pub open spec fn distinct_complex_sources(links: Seq<(String, LinksComplex)>) -> bool {
    distinct_keys(links)
}

/// What written capabilities mean once their links are canonical.
pub open spec fn canonical_capabilities(value: CapabilitiesComplex) -> CapabilitiesSpec {
    CapabilitiesSpec {
        links: match value.links {
            Some(l) => Some(complex_links_view(l@)),
            None => None,
        },
        installs: match value.installs {
            Some(i) => Some(i@),
            None => None,
        },
        depends: match value.depends {
            Some(d) => Some(path_set(d@)),
            None => None,
        },
    }
}

impl CapabilitiesCanonical {
    /// Makes written capabilities canonical: every link becomes a
    /// `LinkConfig` (see `canonical_link_config`); installs and dependencies
    /// are kept.
    pub fn from_complex(value: CapabilitiesComplex) -> (r: Self)
        requires
            value.links matches Some(l) ==> distinct_complex_sources(l@),
        ensures
            r.wf(),
            r@ == canonical_capabilities(value),
    {
        let CapabilitiesComplex { links, installs, depends } = value;
        let links = match links {
            Some(written) => {
                let ghost all = written@;
                let total: usize = written.len();
                let mut written = written;
                let mut canonical: Links = Vec::new();
                let mut done: usize = 0;
                assert(links_view(canonical@) =~= complex_links_view(all.take(0)));
                while written.len() > 0
                    invariant
                        distinct_complex_sources(all),
                        done <= all.len() == total,
                        written@ == all.skip(done as int),
                        canonical@.len() == done,
                        forall|j: int| 0 <= j < done ==> #[trigger] canonical@[j].0@ == all[j].0@,
                        forall|j: int| 0 <= j < done ==> (#[trigger] canonical@[j]).1.wf(),
                        links_view(canonical@) == complex_links_view(all.take(done as int)),
                    decreases written.len(),
                {
                    assert(done < all.len());
                    let (source, link) = written.remove(0);
                    assert(all[done as int] == (source, link));
                    assert(all.take(done + 1).drop_last() =~= all.take(done as int));
                    let config = canonical_link_config(link);
                    let ghost before = canonical@;
                    canonical.push((source, config));
                    assert(canonical@.drop_last() =~= before);
                    done = done + 1;
                    assert(written@ =~= all.skip(done as int));
                }
                assert(all.take(all.len() as int) =~= all);
                assert(distinct_sources(canonical@)) by {
                    assert forall|i: int, j: int| 0 <= i < canonical@.len() && 0 <= j < canonical@.len() && i != j
                        implies canonical@[i].0@ != canonical@[j].0@ by {
                        assert(canonical@[i].0@ == all[i].0@);
                        assert(canonical@[j].0@ == all[j].0@);
                    }
                }
                Some(canonical)
            },
            None => None,
        };
        let r = CapabilitiesCanonical { links, installs, depends };
        assert(r@ =~= canonical_capabilities(value));
        r
    }
}

/// A selector of a dot, already evaluated: whether it applies (or the errors
/// met while evaluating it), whether it is the global one, and its
/// capabilities.
pub struct SelectorOutcome<E> {
    pub applies: Result<bool, Vec<E>>,
    pub global: bool,
    pub capabilities: CapabilitiesCanonical,
}

/// Whether evaluating some selector failed.
pub open spec fn some_selector_failed<E>(selectors: Seq<SelectorOutcome<E>>) -> bool {
    exists|i: int| 0 <= i < selectors.len() && #[trigger] selectors[i].applies is Err
}

/// The errors of all selectors whose evaluation failed, in order.
pub open spec fn selector_errors<E>(selectors: Seq<SelectorOutcome<E>>) -> Seq<E>
    decreases selectors.len(),
{
    if selectors.len() == 0 {
        Seq::empty()
    } else {
        selector_errors(selectors.drop_last()) + match selectors.last().applies {
            Ok(_) => Seq::empty(),
            Err(errors) => errors@,
        }
    }
}

/// The capabilities of the selectors that apply and are (or are not) global,
/// in order.
pub open spec fn applying<E>(selectors: Seq<SelectorOutcome<E>>, global: bool) -> Seq<CapabilitiesSpec>
    decreases selectors.len(),
{
    if selectors.len() == 0 {
        Seq::empty()
    } else {
        let last = selectors.last();
        applying(selectors.drop_last(), global) + if last.applies == Ok::<bool, Vec<E>>(true) && last.global == global {
            seq![last.capabilities@]
        } else {
            Seq::empty()
        }
    }
}

/// Capabilities merged one after the other into `start`.
pub open spec fn merge_all(start: Option<CapabilitiesSpec>, items: Seq<CapabilitiesSpec>) -> Option<CapabilitiesSpec>
    decreases items.len(),
{
    if items.len() == 0 {
        start
    } else {
        merge_optional_capabilities(merge_all(start, items.drop_last()), Some(items.last()))
    }
}

/// The capabilities that a dot ends up with: the applying global selectors
/// merged first, then the applying other selectors, so that the latter take
/// precedence; nothing at all where no selector applies.
pub open spec fn resolved_capabilities<E>(selectors: Seq<SelectorOutcome<E>>) -> CapabilitiesSpec {
    match merge_all(merge_all(None, applying(selectors, true)), applying(selectors, false)) {
        Some(c) => c,
        None => empty_capabilities(),
    }
}

/// Merges the capabilities of `items` one after the other into `acc`.
fn merge_into(acc: Option<CapabilitiesCanonical>, items: Vec<CapabilitiesCanonical>) -> (r: Option<CapabilitiesCanonical>)
    requires
        acc matches Some(c) ==> c.wf(),
        forall|i: int| 0 <= i < items@.len() ==> #[trigger] items@[i].wf(),
    ensures
        r matches Some(c) ==> c.wf(),
        optional_view(r) == merge_all(optional_view(acc), items@.map_values(|c: CapabilitiesCanonical| c@)),
{
    let ghost all = items@;
    let ghost views = all.map_values(|c: CapabilitiesCanonical| c@);
    let ghost start = optional_view(acc);
    let total: usize = items.len();
    let mut items = items;
    let mut acc = acc;
    let mut done: usize = 0;
    assert(views.take(0) =~= Seq::<CapabilitiesSpec>::empty());
    while items.len() > 0
        invariant
            done <= all.len() == total,
            views == all.map_values(|c: CapabilitiesCanonical| c@),
            items@ == all.skip(done as int),
            forall|i: int| 0 <= i < all.len() ==> #[trigger] all[i].wf(),
            acc matches Some(c) ==> c.wf(),
            optional_view(acc) == merge_all(start, views.take(done as int)),
        decreases items.len(),
    {
        assert(done < all.len());
        let item = items.remove(0);
        assert(all[done as int] == item);
        assert(views.take(done + 1).drop_last() =~= views.take(done as int));
        assert(views.take(done + 1).last() == item@);
        acc = merge_optional(acc, Some(item));
        done = done + 1;
        assert(items@ =~= all.skip(done as int));
    }
    assert(views.take(all.len() as int) =~= views);
    acc
}

impl CapabilitiesCanonical {
    /// The capabilities of a dot from its evaluated selectors. If evaluating
    /// any selector failed, the errors of all failed selectors are returned, in
    /// order. Otherwise the capabilities of the applying global selectors are
    /// merged first and those of the other applying selectors after them; a dot
    /// with no applying selector has no capabilities.
    pub fn from<E>(selectors: Vec<SelectorOutcome<E>>) -> (r: Result<Self, Vec<E>>)
        requires
            forall|i: int| 0 <= i < selectors@.len() ==> #[trigger] selectors@[i].capabilities.wf(),
        ensures
            some_selector_failed(selectors@) ==> (r matches Err(errors) && errors@ == selector_errors(selectors@)),
            !some_selector_failed(selectors@) ==> (r matches Ok(c) && c.wf() && c@ == resolved_capabilities(selectors@)),
    {
        let ghost all = selectors@;
        let total: usize = selectors.len();
        let mut failed = false;
        let mut i: usize = 0;
        while i < selectors.len()
            invariant
                i <= selectors@.len(),
                failed <==> exists|j: int| 0 <= j < i && #[trigger] selectors@[j].applies is Err,
            decreases selectors.len() - i,
        {
            if selectors[i].applies.is_err() {
                failed = true;
            }
            i = i + 1;
        }
        let mut selectors = selectors;
        let mut done: usize = 0;
        if failed {
            let mut errors: Vec<E> = Vec::new();
            assert(all.take(0) =~= Seq::<SelectorOutcome<E>>::empty());
            while selectors.len() > 0
                invariant
                    done <= all.len() == total,
                    selectors@ == all.skip(done as int),
                    errors@ == selector_errors(all.take(done as int)),
                decreases selectors.len(),
            {
                assert(done < all.len());
                let selector = selectors.remove(0);
                assert(all[done as int] == selector);
                assert(all.take(done + 1).drop_last() =~= all.take(done as int));
                match selector.applies {
                    Ok(_) => {},
                    Err(mut more) => {
                        errors.append(&mut more);
                    },
                }
                assert(errors@ =~= selector_errors(all.take(done + 1)));
                done = done + 1;
                assert(selectors@ =~= all.skip(done as int));
            }
            assert(all.take(all.len() as int) =~= all);
            return Err(errors);
        }
        let mut globals: Vec<CapabilitiesCanonical> = Vec::new();
        let mut locals: Vec<CapabilitiesCanonical> = Vec::new();
        assert(all.take(0) =~= Seq::<SelectorOutcome<E>>::empty());
        while selectors.len() > 0
            invariant
                done <= all.len() == total,
                selectors@ == all.skip(done as int),
                forall|j: int| 0 <= j < all.len() ==> #[trigger] all[j].capabilities.wf(),
                forall|j: int| 0 <= j < globals@.len() ==> #[trigger] globals@[j].wf(),
                forall|j: int| 0 <= j < locals@.len() ==> #[trigger] locals@[j].wf(),
                globals@.map_values(|c: CapabilitiesCanonical| c@) == applying(all.take(done as int), true),
                locals@.map_values(|c: CapabilitiesCanonical| c@) == applying(all.take(done as int), false),
            decreases selectors.len(),
        {
            assert(done < all.len());
            let selector = selectors.remove(0);
            assert(all[done as int] == selector);
            assert(all.take(done + 1).drop_last() =~= all.take(done as int));
            let ghost gv = globals@.map_values(|c: CapabilitiesCanonical| c@);
            let ghost lv = locals@.map_values(|c: CapabilitiesCanonical| c@);
            let SelectorOutcome { applies, global, capabilities } = selector;
            let ghost cv = capabilities@;
            let applies_now = match applies {
                Ok(b) => b,
                Err(_) => false,
            };
            if applies_now {
                if global {
                    globals.push(capabilities);
                    assert(globals@.map_values(|c: CapabilitiesCanonical| c@) =~= gv.push(cv));
                } else {
                    locals.push(capabilities);
                    assert(locals@.map_values(|c: CapabilitiesCanonical| c@) =~= lv.push(cv));
                }
            }
            assert(globals@.map_values(|c: CapabilitiesCanonical| c@) =~= applying(all.take(done + 1), true));
            assert(locals@.map_values(|c: CapabilitiesCanonical| c@) =~= applying(all.take(done + 1), false));
            done = done + 1;
            assert(selectors@ =~= all.skip(done as int));
        }
        assert(all.take(all.len() as int) =~= all);
        let merged = merge_into(merge_into(None, globals), locals);
        match merged {
            Some(c) => Ok(c),
            None => {
                let c = CapabilitiesCanonical::default();
                assert(c@ =~= empty_capabilities());
                Ok(c)
            },
        }
    }
}

} // verus!
