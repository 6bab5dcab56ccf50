use rotz_link::capabilities::{
    canonical_link_config, merge_optional, CapabilitiesCanonical, CapabilitiesComplex, EnhancedLinkTarget,
    InstallsCanonical, LinksComplex, SelectorOutcome,
};
use rotz_link::config::LinkType;
use rotz_link::encryption::LinkConfig;

fn s(x: &str) -> String {
    x.to_string()
}

fn sorted(mut v: Vec<String>) -> Vec<String> {
    v.sort();
    v
}

fn config_of<'a>(c: &'a CapabilitiesCanonical, source: &str) -> &'a LinkConfig {
    &c.links.as_ref().unwrap().iter().find(|(k, _)| k == source).unwrap().1
}

fn caps(links: Vec<(String, LinkConfig)>) -> CapabilitiesCanonical {
    CapabilitiesCanonical { links: Some(links), installs: None, depends: None }
}

#[test]
fn merge_joins_targets_and_prefers_new_link_type() {
    let a = caps(vec![
        (s("k01"), LinkConfig { targets: vec![s("v01")], link_type: Some(LinkType::Copy) }),
        (s("k02"), LinkConfig { targets: vec![s("v02")], link_type: Some(LinkType::Hard) }),
    ]);
    let b = caps(vec![
        (s("k01"), LinkConfig { targets: vec![s("v01"), s("v01b")], link_type: Some(LinkType::Record) }),
        (s("k02"), LinkConfig { targets: vec![s("v02b")], link_type: None }),
        (s("k03"), LinkConfig { targets: vec![s("v03")], link_type: None }),
    ]);
    let m = a.merge(b);
    assert_eq!(m.links.as_ref().unwrap().len(), 3);
    let k01 = config_of(&m, "k01");
    assert_eq!(sorted(k01.targets.clone()), vec![s("v01"), s("v01b")]);
    assert_eq!(k01.link_type, Some(LinkType::Record));
    let k02 = config_of(&m, "k02");
    assert_eq!(sorted(k02.targets.clone()), vec![s("v02"), s("v02b")]);
    assert_eq!(k02.link_type, Some(LinkType::Hard));
    assert_eq!(config_of(&m, "k03").targets, vec![s("v03")]);
}

#[test]
fn merge_installs_and_depends() {
    let a = CapabilitiesCanonical {
        links: None,
        installs: Some(InstallsCanonical::Full { cmd: s("old"), depends: vec![s("a")] }),
        depends: Some(vec![s("d01")]),
    };
    let b = CapabilitiesCanonical {
        links: None,
        installs: Some(InstallsCanonical::Full { cmd: s("new"), depends: vec![s("b")] }),
        depends: Some(vec![s("d02"), s("d01")]),
    };
    let m = a.merge(b);
    match m.installs {
        Some(InstallsCanonical::Full { cmd, depends }) => {
            assert_eq!(cmd, "new");
            assert_eq!(sorted(depends), vec![s("a"), s("b")]);
        },
        other => panic!("unexpected installs {:?}", other),
    }
    assert_eq!(sorted(m.depends.unwrap()), vec![s("d01"), s("d02")]);
}

#[test]
fn merge_disabled_installs_clears() {
    let a = CapabilitiesCanonical {
        links: None,
        installs: Some(InstallsCanonical::Full { cmd: s("cmd"), depends: vec![] }),
        depends: None,
    };
    let b = CapabilitiesCanonical { links: None, installs: Some(InstallsCanonical::Disabled(false)), depends: None };
    let m = a.merge(b);
    assert!(m.installs.is_none());
}

#[test]
fn merge_with_empty_changes_nothing() {
    let a = caps(vec![(s("k01"), LinkConfig { targets: vec![s("v01")], link_type: None })]);
    let m = a.clone().merge(CapabilitiesCanonical::default());
    assert_eq!(config_of(&m, "k01").targets, vec![s("v01")]);
    let m2 = CapabilitiesCanonical::default().merge(a);
    assert_eq!(config_of(&m2, "k01").targets, vec![s("v01")]);
    assert!(m2.installs.is_none() && m2.depends.is_none());
}

#[test]
fn merge_optional_cases() {
    let a = caps(vec![(s("k"), LinkConfig { targets: vec![s("x")], link_type: None })]);
    assert!(merge_optional(None, None).is_none());
    assert!(merge_optional(Some(a.clone()), None).is_some());
    assert!(merge_optional(None, Some(a.clone())).is_some());
    let both = merge_optional(
        Some(a.clone()),
        Some(caps(vec![(s("k"), LinkConfig { targets: vec![s("y")], link_type: None })])),
    )
    .unwrap();
    assert_eq!(sorted(config_of(&both, "k").targets.clone()), vec![s("x"), s("y")]);
}

#[test]
fn canonical_forms_of_links() {
    let one = canonical_link_config(LinksComplex::One(s("v01")));
    assert_eq!(one.targets, vec![s("v01")]);
    assert_eq!(one.link_type, None);
    let many = canonical_link_config(LinksComplex::Many(vec![s("v02a"), s("v02b")]));
    assert_eq!(sorted(many.targets), vec![s("v02a"), s("v02b")]);
    let enhanced =
        canonical_link_config(LinksComplex::Enhanced(LinkConfig { targets: vec![s("t")], link_type: Some(LinkType::Encrypted) }));
    assert_eq!(enhanced.link_type, Some(LinkType::Encrypted));
    let map = canonical_link_config(LinksComplex::EnhancedMap(vec![
        (s("a"), EnhancedLinkTarget::Single { target: s("ta"), link_type: Some(LinkType::Copy) }),
        (s("b"), EnhancedLinkTarget::Multiple { targets: vec![s("tb1"), s("tb2")], link_type: None }),
        (s("c"), EnhancedLinkTarget::TypeOnly { link_type: Some(LinkType::Record) }),
    ]));
    assert_eq!(sorted(map.targets), vec![s("c"), s("ta"), s("tb1"), s("tb2")]);
    assert_eq!(map.link_type, Some(LinkType::Record));
    let empty = canonical_link_config(LinksComplex::EnhancedMap(vec![]));
    assert!(empty.targets.is_empty() && empty.link_type.is_none());
}

#[test]
fn canonical_targets_occur_once() {
    let many = canonical_link_config(LinksComplex::Many(vec![s("x"), s("y"), s("x")]));
    assert_eq!(many.targets, vec![s("x"), s("y")]);
    let enhanced = canonical_link_config(LinksComplex::Enhanced(LinkConfig { targets: vec![s("t"), s("t")], link_type: None }));
    assert_eq!(enhanced.targets, vec![s("t")]);
    let map = canonical_link_config(LinksComplex::EnhancedMap(vec![
        (s("a"), EnhancedLinkTarget::Single { target: s("z"), link_type: None }),
        (s("b"), EnhancedLinkTarget::Multiple { targets: vec![s("z"), s("w")], link_type: None }),
    ]));
    assert_eq!(map.targets, vec![s("z"), s("w")]);
}

#[test]
fn from_complex_keeps_sources() {
    let complex = CapabilitiesComplex {
        links: Some(vec![(s("k01"), LinksComplex::One(s("v01"))), (s("k02"), LinksComplex::Many(vec![s("v02a"), s("v02b")]))]),
        installs: Some(InstallsCanonical::Full { cmd: s("i01"), depends: vec![] }),
        depends: Some(vec![s("d01")]),
    };
    let c = CapabilitiesCanonical::from_complex(complex);
    assert_eq!(config_of(&c, "k01").targets, vec![s("v01")]);
    assert_eq!(sorted(config_of(&c, "k02").targets.clone()), vec![s("v02a"), s("v02b")]);
    assert_eq!(c.depends, Some(vec![s("d01")]));
}

#[test]
fn selectors_override_globals() {
    let global = SelectorOutcome::<String> {
        applies: Ok(true),
        global: true,
        capabilities: caps(vec![(s("k"), LinkConfig { targets: vec![s("g")], link_type: Some(LinkType::Copy) })]),
    };
    let local = SelectorOutcome::<String> {
        applies: Ok(true),
        global: false,
        capabilities: caps(vec![(s("k"), LinkConfig { targets: vec![s("l")], link_type: Some(LinkType::Record) })]),
    };
    let skipped = SelectorOutcome::<String> {
        applies: Ok(false),
        global: false,
        capabilities: caps(vec![(s("k"), LinkConfig { targets: vec![s("x")], link_type: Some(LinkType::Hard) })]),
    };
    // the local selector is listed first, the global one still comes first
    let c = CapabilitiesCanonical::from(vec![local, skipped, global]).unwrap();
    let k = config_of(&c, "k");
    assert_eq!(sorted(k.targets.clone()), vec![s("g"), s("l")]);
    assert_eq!(k.link_type, Some(LinkType::Record));
}

#[test]
fn selector_errors_are_collected() {
    let bad1 = SelectorOutcome::<String> { applies: Err(vec![s("e1"), s("e2")]), global: false, capabilities: CapabilitiesCanonical::default() };
    let good = SelectorOutcome::<String> { applies: Ok(true), global: true, capabilities: CapabilitiesCanonical::default() };
    let bad2 = SelectorOutcome::<String> { applies: Err(vec![s("e3")]), global: true, capabilities: CapabilitiesCanonical::default() };
    match CapabilitiesCanonical::from(vec![bad1, good, bad2]) {
        Err(errors) => assert_eq!(errors, vec![s("e1"), s("e2"), s("e3")]),
        Ok(_) => panic!("expected errors"),
    }
}

#[test]
fn no_applying_selector_gives_nothing() {
    let c = CapabilitiesCanonical::from(Vec::<SelectorOutcome<String>>::new()).unwrap();
    assert!(c.links.is_none() && c.installs.is_none() && c.depends.is_none());
}

#[test]
fn merge_grouping_does_not_change_links_or_depends() {
    let a = CapabilitiesCanonical {
        links: Some(vec![(s("k"), LinkConfig { targets: vec![s("a")], link_type: Some(LinkType::Copy) })]),
        installs: None,
        depends: Some(vec![s("da")]),
    };
    let b = CapabilitiesCanonical {
        links: Some(vec![(s("k"), LinkConfig { targets: vec![s("b")], link_type: None })]),
        installs: None,
        depends: Some(vec![s("db")]),
    };
    let c = CapabilitiesCanonical {
        links: Some(vec![(s("k"), LinkConfig { targets: vec![s("c")], link_type: Some(LinkType::Hard) }), (s("j"), LinkConfig { targets: vec![s("x")], link_type: None })]),
        installs: None,
        depends: Some(vec![s("dc")]),
    };
    let left = a.clone().merge(b.clone()).merge(c.clone());
    let right = a.merge(b.merge(c));
    for key in ["k", "j"] {
        let l = config_of(&left, key);
        let r = config_of(&right, key);
        assert_eq!(sorted(l.targets.clone()), sorted(r.targets.clone()));
        assert_eq!(l.link_type, r.link_type);
    }
    assert_eq!(config_of(&left, "k").link_type, Some(LinkType::Hard));
    assert_eq!(sorted(left.depends.unwrap()), sorted(right.depends.unwrap()));
}
