use rotz_link::config::LinkType;
use rotz_link::encryption::{EncryptionError, IdentityFile, LinkConfig, SyncDirection};
use rotz_link::link::{
    create_link_step, encrypted_sync_data, find_orphans, is_likely_encrypted, link_jobs, link_method, plan_enhanced_link,
    orphan_removal, requested_targets, Orphan, OrphanRemoval, finish_orphan_removal, linked_state_is_valid, record_run, LinkAttempt,
    record_dot, record_link, sync_method, was_linked, CreateLinkAction, CreateLinkEvent, CreateLinkRequest,
    CreateLinkState, Error, LinkMethod, LinkedState, SyncMethod,
};

fn s(x: &str) -> String {
    x.to_string()
}

fn check_is_likely_encrypted() {
    // Test plaintext detection
    let plaintext = b"This is plain text content";
    assert!(!is_likely_encrypted(plaintext));

    // Test age encrypted file detection
    let age_encrypted = b"-----BEGIN AGE ENCRYPTED FILE-----\nsome encrypted data here";
    assert!(is_likely_encrypted(age_encrypted));

    // Test binary/encrypted-like content detection
    let binary_data = &[0x00, 0x01, 0x02, 0x03, 0xFF, 0xFE, 0xFD, 0xFC];
    assert!(is_likely_encrypted(binary_data));

    // Test mixed content (mostly printable)
    let mixed_content = b"Hello world!\x00\x01\x02";
    assert!(!is_likely_encrypted(mixed_content));

    // Test empty data
    let empty_data = b"";
    assert!(!is_likely_encrypted(empty_data));
}

#[test]
fn copy_test_is_likely_encrypted() {
    check_is_likely_encrypted();
}

#[test]
fn encrypted_test_is_likely_encrypted() {
    check_is_likely_encrypted();
}

#[test]
fn likely_encrypted_documented_examples() {
    assert!(is_likely_encrypted(b"-----BEGIN AGE ENCRYPTED FILE-----\nabc123..."));
    assert!(!is_likely_encrypted(b"Hello, this is plain text content!"));
    assert!(is_likely_encrypted(&[0xFF, 0x00, 0xAB, 0xCD, 0x12, 0x34, 0x56, 0x78, 0x9A, 0xBC]));
    assert!(!is_likely_encrypted(b""));
    assert!(!is_likely_encrypted(b"Hello\nWorld\t!"));
}

#[test]
fn likely_encrypted_threshold_is_strictly_above_a_fifth() {
    // exactly one in five non-printable: not encrypted
    assert!(!is_likely_encrypted(b"abcd\x00"));
    // two in nine (22%): encrypted
    assert!(is_likely_encrypted(b"abcdefg\x00\x01"));
    // header shorter than required is just text
    assert!(!is_likely_encrypted(b"-----BEGIN AGE"));
}

fn request(link_type: LinkType, force: bool, linked_before: bool) -> CreateLinkRequest {
    CreateLinkRequest { from: s("/dots/a"), to: s("/home/a"), link_type, force, linked_before }
}

#[test]
fn link_methods() {
    assert_eq!(link_method(&LinkType::Symbolic), LinkMethod::Symlink);
    assert_eq!(link_method(&LinkType::Hard), LinkMethod::Hardlink);
    assert_eq!(link_method(&LinkType::Copy), LinkMethod::Copy);
    assert_eq!(link_method(&LinkType::Record), LinkMethod::Copy);
    assert_eq!(link_method(&LinkType::Encrypted), LinkMethod::Encrypt);
}

#[test]
fn create_link_missing_source() {
    let req = request(LinkType::Symbolic, false, false);
    let (state, action) = create_link_step(CreateLinkState::CheckingSource, CreateLinkEvent::SourceChecked { exists: false }, &req);
    assert_eq!(state, CreateLinkState::Finished);
    assert!(matches!(action, CreateLinkAction::Finish(Err(Error::LinkSourceDoesNotExist(ref p))) if p == "/dots/a"));
}

#[test]
fn create_link_with_copy_type_succeeds() {
    let req = request(LinkType::Copy, false, false);
    let (state, action) = create_link_step(CreateLinkState::CheckingSource, CreateLinkEvent::SourceChecked { exists: true }, &req);
    assert_eq!(state, CreateLinkState::Creating);
    assert!(matches!(action, CreateLinkAction::Create(LinkMethod::Copy)));
    let (state, action) = create_link_step(state, CreateLinkEvent::Created, &req);
    assert_eq!(state, CreateLinkState::Finished);
    assert!(matches!(action, CreateLinkAction::Finish(Ok(()))));
}

fn exists_error() -> std::io::Error {
    std::io::Error::new(std::io::ErrorKind::AlreadyExists, "exists")
}

#[test]
fn create_link_existing_target_refused() {
    let req = request(LinkType::Symbolic, false, false);
    let (state, action) = create_link_step(
        CreateLinkState::Creating,
        CreateLinkEvent::CreateFailed { error: exists_error(), already_exists: true },
        &req,
    );
    assert_eq!(state, CreateLinkState::Finished);
    assert!(matches!(action, CreateLinkAction::Finish(Err(Error::AlreadyExists(ref p))) if p == "/home/a"));
}

#[test]
fn create_link_forced_replaces_target() {
    for req in [request(LinkType::Symbolic, true, false), request(LinkType::Hard, false, true)] {
        let (state, action) = create_link_step(
            CreateLinkState::Creating,
            CreateLinkEvent::CreateFailed { error: exists_error(), already_exists: true },
            &req,
        );
        assert_eq!(state, CreateLinkState::Removing);
        assert!(matches!(action, CreateLinkAction::RemoveExisting));
        let (state, action) = create_link_step(state, CreateLinkEvent::Removed, &req);
        assert_eq!(state, CreateLinkState::Recreating);
        assert!(matches!(action, CreateLinkAction::Create(_)));
        let (state, action) = create_link_step(
            state,
            CreateLinkEvent::CreateFailed { error: exists_error(), already_exists: true },
            &req,
        );
        assert_eq!(state, CreateLinkState::Finished);
        assert!(matches!(action, CreateLinkAction::Finish(Err(Error::Symlink(_, _, _)))));
    }
}

#[test]
fn create_link_other_failure_and_remove_failure() {
    let req = request(LinkType::Symbolic, true, false);
    let other = std::io::Error::new(std::io::ErrorKind::PermissionDenied, "denied");
    let (_, action) = create_link_step(CreateLinkState::Creating, CreateLinkEvent::CreateFailed { error: other, already_exists: false }, &req);
    assert!(matches!(action, CreateLinkAction::Finish(Err(Error::Symlink(ref f, ref t, _))) if f == "/dots/a" && t == "/home/a"));
    let denied = std::io::Error::new(std::io::ErrorKind::PermissionDenied, "denied");
    let (state, action) = create_link_step(CreateLinkState::Removing, CreateLinkEvent::RemoveFailed(denied), &req);
    assert_eq!(state, CreateLinkState::Finished);
    assert!(matches!(action, CreateLinkAction::Finish(Err(Error::Symlink(_, _, _)))));
}

#[test]
fn enhanced_link_plans() {
    // copy type, both exist: source -> target, no link afterwards
    let p = plan_enhanced_link(true, true, &LinkType::Copy);
    assert_eq!(p.sync, Some(SyncDirection::SourceToTarget));
    assert!(!p.then_link);
    // record type, both exist: target -> source
    assert_eq!(plan_enhanced_link(true, true, &LinkType::Record).sync, Some(SyncDirection::TargetToSource));
    // neither exists: both created empty
    assert_eq!(plan_enhanced_link(false, false, &LinkType::Copy).sync, Some(SyncDirection::CreateBoth));
    // only the source exists
    assert_eq!(plan_enhanced_link(true, false, &LinkType::Copy).sync, Some(SyncDirection::SourceToTarget));
    // only the target exists
    assert_eq!(plan_enhanced_link(false, true, &LinkType::Copy).sync, Some(SyncDirection::TargetToSource));
    // encrypted, both exist: target -> source
    assert_eq!(plan_enhanced_link(true, true, &LinkType::Encrypted).sync, Some(SyncDirection::TargetToSource));
    assert!(!plan_enhanced_link(true, true, &LinkType::Encrypted).then_link);
}

#[test]
fn link_kinds_are_only_linked() {
    for t in [LinkType::Symbolic, LinkType::Hard].iter() {
        for (source, target) in [(true, true), (true, false), (false, true), (false, false)].iter() {
            let p = plan_enhanced_link(*source, *target, t);
            assert_eq!(p.sync, None);
            assert!(p.then_link);
        }
    }
}

#[test]
fn sync_methods() {
    assert_eq!(sync_method(true, &LinkType::Encrypted), SyncMethod::CopyDirectory);
    assert_eq!(sync_method(false, &LinkType::Encrypted), SyncMethod::SyncEncrypted);
    assert_eq!(sync_method(false, &LinkType::Copy), SyncMethod::CopyFile);
    assert_eq!(sync_method(false, &LinkType::Record), SyncMethod::CopyFile);
}

#[test]
fn encrypted_sync_refuses_plaintext() {
    let r = encrypted_sync_data(b"plaintext content".to_vec(), IdentityFile::NotConfigured);
    assert!(matches!(r, Err(Error::Encryption(EncryptionError::UnexpectedPlaintext))));
}

#[test]
fn encrypted_sync_without_key_copies_as_is() {
    let content = b"-----BEGIN AGE ENCRYPTED FILE-----\nsome encrypted data here".to_vec();
    let r = encrypted_sync_data(content.clone(), IdentityFile::NotConfigured).unwrap();
    assert_eq!(r, content);
    let r = encrypted_sync_data(content.clone(), IdentityFile::Contents(s("not a key"))).unwrap();
    assert_eq!(r, content);
}

#[test]
fn encrypted_sync_with_unreadable_identity_copies_as_is() {
    let content = b"-----BEGIN AGE ENCRYPTED FILE-----\nx".to_vec();
    let err = std::io::Error::new(std::io::ErrorKind::NotFound, "gone");
    let r = encrypted_sync_data(content.clone(), IdentityFile::Unreadable(err)).unwrap();
    assert_eq!(r, content);
}

#[test]
fn orphans_of_selected_dots() {
    let linked: LinkedState = vec![
        (s("/git"), vec![(s("/home/.gitconfig"), s("/dots/git/.gitconfig")), (s("/home/.gitignore"), s("/dots/git/.gitignore"))]),
        (s("/zsh"), vec![(s("/home/.zshrc"), s("/dots/zsh/.zshrc"))]),
    ];
    let current = vec![s("/home/.gitconfig")];
    let orphans = find_orphans(&current, &linked, &vec![s("/git")]);
    assert_eq!(orphans.len(), 1);
    assert_eq!(orphans[0].dot, "/git");
    assert_eq!(orphans[0].to, "/home/.gitignore");
    assert_eq!(orphans[0].from, "/dots/git/.gitignore");
    let all = find_orphans(&current, &linked, &vec![s("/git"), s("/zsh")]);
    assert_eq!(all.len(), 2);
    assert_eq!(all[1].to, "/home/.zshrc");
}

#[test]
fn recorded_links_are_found() {
    let mut linked: LinkedState = Vec::new();
    let mut links = Vec::new();
    record_link(&mut links, s("/home/.zshrc"), s("/dots/zsh/old"));
    record_link(&mut links, s("/home/.zshrc"), s("/dots/zsh/.zshrc"));
    assert_eq!(links, vec![(s("/home/.zshrc"), s("/dots/zsh/.zshrc"))]);
    record_dot(&mut linked, s("/zsh"), links);
    record_dot(&mut linked, s("/empty"), Vec::new());
    assert_eq!(linked.len(), 1);
    assert!(was_linked(&linked, &s("/zsh"), &s("/home/.zshrc")));
    assert!(!was_linked(&linked, &s("/zsh"), &s("/home/.bashrc")));
    assert!(!was_linked(&linked, &s("/empty"), &s("/home/.zshrc")));
}

#[test]
fn requested_targets_of_all_dots() {
    let dots = vec![
        (s("/git"), vec![(s(".gitconfig"), LinkConfig { targets: vec![s("/home/.gitconfig"), s("/etc/gitconfig")], link_type: None })]),
        (s("/zsh"), vec![(s(".zshrc"), LinkConfig { targets: vec![s("/home/.zshrc"), s("/home/.gitconfig")], link_type: None })]),
    ];
    let mut targets = requested_targets(&dots);
    targets.sort();
    assert_eq!(targets, vec![s("/etc/gitconfig"), s("/home/.gitconfig"), s("/home/.zshrc")]);
}

#[test]
fn link_jobs_use_override_or_global() {
    let links = vec![
        (s(".bashrc"), LinkConfig { targets: vec![s("/home/.bashrc")], link_type: None }),
        (s(".secrets"), LinkConfig { targets: vec![s("/home/.secrets"), s("/root/.secrets")], link_type: Some(LinkType::Encrypted) }),
    ];
    let jobs = link_jobs(&links, &LinkType::Copy);
    assert_eq!(jobs.len(), 3);
    assert_eq!((jobs[0].from.as_str(), jobs[0].to.as_str(), jobs[0].link_type), (".bashrc", "/home/.bashrc", LinkType::Copy));
    assert_eq!((jobs[1].from.as_str(), jobs[1].to.as_str(), jobs[1].link_type), (".secrets", "/home/.secrets", LinkType::Encrypted));
    assert_eq!((jobs[2].from.as_str(), jobs[2].to.as_str(), jobs[2].link_type), (".secrets", "/root/.secrets", LinkType::Encrypted));
}

#[test]
fn orphan_removal_outcomes() {
    let orphan = Orphan { dot: s("/git"), to: s("/home/.gitignore"), from: s("/dots/git/.gitignore") };
    assert!(matches!(orphan_removal(&orphan, Some(Ok(())), false), OrphanRemoval::Removed));
    let gone = std::io::Error::new(std::io::ErrorKind::NotFound, "gone");
    assert!(matches!(orphan_removal(&orphan, Some(Err(gone)), true), OrphanRemoval::AlreadyGone));
    let denied = std::io::Error::new(std::io::ErrorKind::PermissionDenied, "denied");
    match orphan_removal(&orphan, Some(Err(denied)), false) {
        OrphanRemoval::Failed(Error::RemovingOrphan(from, to, _)) => {
            assert_eq!(from, "/dots/git/.gitignore");
            assert_eq!(to, "/home/.gitignore");
        },
        other => panic!("unexpected {:?}", other),
    }
}

#[test]
fn dry_run_orphans_count_as_removed() {
    let orphan = Orphan { dot: s("/git"), to: s("/home/.gitignore"), from: s("/dots/git/.gitignore") };
    assert!(matches!(orphan_removal(&orphan, None, false), OrphanRemoval::Removed));
}

#[test]
fn failed_orphan_removal_stops_linking() {
    assert!(finish_orphan_removal(vec![OrphanRemoval::Removed, OrphanRemoval::AlreadyGone]).is_ok());
    assert!(finish_orphan_removal(vec![]).is_ok());
    let denied = std::io::Error::new(std::io::ErrorKind::PermissionDenied, "denied");
    let outcomes = vec![
        OrphanRemoval::Removed,
        OrphanRemoval::Failed(Error::RemovingOrphan(s("/a"), s("/b"), denied)),
        OrphanRemoval::Failed(Error::AlreadyExists(s("/c"))),
    ];
    let errors = finish_orphan_removal(outcomes).unwrap_err();
    assert_eq!(errors.len(), 2);
    assert!(matches!(&errors[0], Error::RemovingOrphan(from, to, _) if from == "/a" && to == "/b"));
    assert!(matches!(&errors[1], Error::AlreadyExists(p) if p == "/c"));
}

#[test]
fn only_made_links_are_recorded() {
    let attempt = |to: &str, from: &str, made: bool| LinkAttempt { to: s(to), from: s(from), made };
    let run = vec![
        (s("/git"), vec![attempt("/home/.a", "/dots/git/a", true), attempt("/home/.b", "/dots/git/b", false)]),
        (s("/zsh"), vec![attempt("/home/.zshrc", "/dots/zsh/.zshrc", false)]),
        (s("/vim"), vec![]),
        (s("/tmux"), vec![attempt("/home/.t", "/dots/tmux/t1", true), attempt("/home/.t", "/dots/tmux/t2", true)]),
    ];
    let linked = record_run(run);
    assert!(linked_state_is_valid(&linked));
    assert_eq!(
        linked,
        vec![(s("/git"), vec![(s("/home/.a"), s("/dots/git/a"))]), (s("/tmux"), vec![(s("/home/.t"), s("/dots/tmux/t2"))])]
    );
    assert!(was_linked(&linked, &s("/git"), &s("/home/.a")));
    assert!(!was_linked(&linked, &s("/git"), &s("/home/.b")));
    assert!(record_run(vec![]).is_empty());
}

#[test]
fn linked_state_validity() {
    let good: LinkedState = vec![
        (s("/git"), vec![(s("/home/.gitconfig"), s("/dots/git/.gitconfig"))]),
        (s("/zsh"), vec![(s("/home/.zshrc"), s("/dots/zsh/.zshrc"))]),
    ];
    assert!(linked_state_is_valid(&good));
    let twice_dot: LinkedState = vec![(s("/git"), vec![]), (s("/git"), vec![])];
    assert!(!linked_state_is_valid(&twice_dot));
    let twice_target: LinkedState =
        vec![(s("/git"), vec![(s("/home/.a"), s("/dots/a")), (s("/home/.a"), s("/dots/b"))])];
    assert!(!linked_state_is_valid(&twice_target));
    assert!(linked_state_is_valid(&Vec::new()));
}
