//! Conversations and their projects.
use codex_bridge::project::layout::{
    layout_step, project_layout, CreatedProjectLayout, PathState,
};
use codex_bridge::project::{
    derive_native_project_key, derive_subject_key, encode_project_key, is_valid_key,
    is_windows_reserved_alias, join_path, validate_alias, ProjectKey, ProjectResolver,
    INITIALIZED_CACHE_MAX_ENTRIES,
};
use codex_bridge::request_context::{RequestIdentity, TransportMode};
use codex_bridge::storage::Storage;
use sha2::{Digest, Sha256};

const NOW: &str = "2026-01-01T00:00:00+00:00";

fn resolver() -> ProjectResolver {
    ProjectResolver::new("/work".to_owned(), '/', Storage::new())
}

fn identity(
    subject: &str,
    conversation: &str,
    mcp_session_id: Option<&str>,
) -> RequestIdentity {
    RequestIdentity {
        openai_subject: subject.to_owned(),
        openai_conversation_id: conversation.to_owned(),
        mcp_session_id: mcp_session_id.map(str::to_owned),
        transport_mode: if mcp_session_id.is_some() {
            TransportMode::LegacySession
        } else {
            TransportMode::Stateless
        },
    }
}

#[test]
fn chatgpt_key_derivation_is_exact_and_separated() {
    let key = derive_native_project_key("subject", "conversation");
    let expected = encode_project_key(Sha256::digest(b"chatgpt\0subject\0conversation").into());
    assert_eq!(key.as_str(), expected);
    for (subject, conversation, same) in [
        ("subject", "conversation", true),
        ("subject", "other", false),
        ("other", "conversation", false),
    ] {
        let other = derive_native_project_key(subject, conversation);
        assert_eq!(key.as_str() == other.as_str(), same);
    }
    assert!(
        key.as_str()
            .chars()
            .all(|c| c.is_ascii_alphanumeric() || c == '_')
    );
}

#[test]
fn transport_session_never_changes_chatgpt_project_identity() {
    let mut resolver = resolver();
    let stateless = resolver.resolve(&identity("usr", "conv", None)).unwrap();
    let legacy_a = resolver
        .resolve(&identity("usr", "conv", Some("SESSION_A")))
        .unwrap();
    let legacy_b = resolver
        .resolve(&identity("usr", "conv", Some("SESSION_B")))
        .unwrap();
    assert_eq!(stateless.native_project_key.as_str(), legacy_a.native_project_key.as_str());
    assert_eq!(legacy_a.native_project_key.as_str(), legacy_b.native_project_key.as_str());
    assert_eq!(stateless.project_root, legacy_b.project_root);
}

#[test]
fn project_roots_are_canonical_even_when_workspace_argument_is_not() {
    let resolver = ProjectResolver::new("/canonical/workspace".to_owned(), '/', Storage::new());
    let project = resolver.resolve(&identity("usr", "conv", None)).unwrap();
    let key = project.effective_project_key.as_str();
    assert_eq!(project.project_root, format!("/canonical/workspace/{key}"));
    assert_eq!(
        project.metadata_root,
        format!("/canonical/workspace/.metadata/projects/{key}")
    );
}

#[test]
fn conversations_and_users_are_isolated() {
    let resolver = resolver();
    let a = resolver
        .resolve(&identity("usr_a", "conv_1", None))
        .unwrap();
    let b = resolver
        .resolve(&identity("usr_a", "conv_2", None))
        .unwrap();
    let c = resolver
        .resolve(&identity("usr_b", "conv_1", None))
        .unwrap();
    assert_ne!(a.project_root, b.project_root);
    assert_ne!(a.project_root, c.project_root);
    assert_ne!(a.metadata_root, b.metadata_root);
    assert_ne!(a.metadata_root, c.metadata_root);
}

#[test]
fn alias_rejoin_and_binding_persist_across_storage_reopen() {
    let identity_a = identity("usr_a", "conv_a", None);
    let identity_b = identity("usr_b", "conv_b", None);
    let mut first = resolver();
    let (a, joined) = first.initialize(&identity_a, Some("rust-demo")).unwrap();
    assert!(!joined);
    assert_eq!(a.project_root, "/work/rust-demo");
    let (b, joined) = first.initialize(&identity_b, Some("rust-demo")).unwrap();
    assert!(joined);
    assert_eq!(
        a.effective_project_key.as_str(),
        b.effective_project_key.as_str()
    );
    let reopened = ProjectResolver::new("/work".to_owned(), '/', first.storage);
    let restored = reopened.resolve(&identity_b).unwrap();
    assert_eq!(
        restored.effective_project_key.as_str(),
        a.effective_project_key.as_str()
    );
    assert_eq!(restored.project_alias.as_deref(), Some("rust-demo"));
    assert_eq!(restored.project_root, a.project_root);
}

#[test]
fn aliases_are_case_insensitive_so_windows_paths_cannot_collide() {
    let mut resolver = resolver();

    let (first, joined) = resolver
        .initialize(&identity("usr-a", "conv-a", None), Some("ReleaseProject"))
        .unwrap();
    assert!(!joined);
    let (second, joined) = resolver
        .initialize(&identity("usr-b", "conv-b", None), Some("releaseproject"))
        .unwrap();
    assert!(joined);
    assert_eq!(second.project_alias.as_deref(), Some("ReleaseProject"));
    assert_eq!(first.effective_project_key.as_str(), second.effective_project_key.as_str());
    assert_eq!(first.project_root, second.project_root);
    assert_eq!(first.metadata_root, second.metadata_root);
    assert_eq!(first.effective_project_key.as_str(), "ReleaseProject");

    let (isolated, joined) = resolver
        .initialize(&identity("usr-c", "conv-c", None), None)
        .unwrap();
    assert!(!joined);
    assert_ne!(isolated.effective_project_key.as_str(), first.effective_project_key.as_str());
    assert_ne!(isolated.project_root, first.project_root);
}

#[test]
fn aliasless_init_persists_the_initialization_binding() {
    let request = identity("usr", "conv", None);
    let mut first = resolver();
    assert_eq!(
        first.resolve_initialized(&request).err().unwrap().code(),
        "TURN_NOT_INITIALIZED"
    );
    let (initialized, joined) = first.initialize(&request, None).unwrap();
    assert!(!joined);
    assert_eq!(
        initialized.native_project_key.as_str(),
        initialized.effective_project_key.as_str()
    );
    let reopened = ProjectResolver::new("/work".to_owned(), '/', first.storage);
    let (restored, cached) = reopened.resolve_initialized(&request).unwrap();
    assert!(!cached);
    assert_eq!(
        restored.native_project_key.as_str(),
        restored.effective_project_key.as_str()
    );
}

#[test]
fn prepare_distinguishes_new_existing_and_joined_projects() {
    let mut resolver = resolver();
    let first = identity("usr_a", "conv_a", None);
    let second = identity("usr_b", "conv_b", None);

    let fresh = resolver.prepare_initialize(&first, None).unwrap();
    assert!(!fresh.reused_existing_binding);
    assert!(!fresh.joined);
    resolver.commit_initialize(&fresh).unwrap();

    let existing = resolver.prepare_initialize(&first, None).unwrap();
    assert!(existing.reused_existing_binding);
    assert!(!existing.joined);

    let alias_owner = identity("usr_c", "conv_c", None);
    let alias = resolver
        .prepare_initialize(&alias_owner, Some("shared-project"))
        .unwrap();
    resolver.commit_initialize(&alias).unwrap();
    let joined = resolver
        .prepare_initialize(&second, Some("shared-project"))
        .unwrap();
    assert!(!joined.reused_existing_binding);
    assert!(joined.joined);
}

#[test]
fn turn_ref_can_branch_same_subject_into_same_effective_project() {
    let mut resolver = resolver();
    let original = identity("usr", "conv-a", None);
    let branch = identity("usr", "conv-b", None);

    let first = resolver
        .prepare_turn_initialize(&original, Some("demo-project"), None)
        .unwrap();
    resolver
        .commit_initialize_with_turn_ref(&first, "r_A", None, "I1", "S1", "brief-A", None, NOW)
        .unwrap();

    let prepared_branch = resolver
        .prepare_turn_initialize(&branch, None, Some("r_A"))
        .unwrap();
    assert!(prepared_branch.joined);
    assert!(!prepared_branch.reused_existing_binding);
    assert_eq!(
        prepared_branch.project.effective_project_key.as_str(),
        first.project.effective_project_key.as_str()
    );
    let outcome = resolver
        .commit_initialize_with_turn_ref(
            &prepared_branch,
            "r_A1",
            Some("r_A"),
            "I1",
            "S1",
            "brief-A1",
            None,
            NOW,
        )
        .unwrap();
    assert_eq!(outcome.parent_turn_ref.as_deref(), Some("r_A"));
    assert_eq!(
        outcome.parent_native_key.as_deref(),
        Some(first.project.native_project_key.as_str())
    );
}

#[test]
fn turn_ref_branch_is_scoped_to_openai_subject() {
    let mut resolver = resolver();
    let original = identity("usr-a", "conv-a", None);
    let other_user = identity("usr-b", "conv-b", None);

    let first = resolver
        .prepare_turn_initialize(&original, Some("demo-project"), None)
        .unwrap();
    resolver
        .commit_initialize_with_turn_ref(&first, "r_A", None, "I1", "S1", "brief-A", None, NOW)
        .unwrap();

    let error = resolver
        .prepare_turn_initialize(&other_user, None, Some("r_A"))
        .err().unwrap();
    assert_eq!(error.code(), "TURN_REF_NOT_FOUND");
}

#[test]
fn bound_conversation_requires_explicit_previous_turn_ref_for_next_turn() {
    let mut resolver = resolver();
    let request = identity("usr", "conv", None);

    let first = resolver
        .prepare_turn_initialize(&request, Some("demo-project"), None)
        .unwrap();
    resolver
        .commit_initialize_with_turn_ref(&first, "r_A", None, "I1", "S1", "brief-A", None, NOW)
        .unwrap();

    let missing_parent = resolver
        .prepare_turn_initialize(&request, None, None)
        .unwrap();
    let error = resolver
        .commit_initialize_with_turn_ref(
            &missing_parent,
            "r_B",
            None,
            "I1",
            "S1",
            "brief-B",
            None,
            NOW,
        )
        .err().unwrap();
    assert_eq!(error.code(), "PREVIOUS_TURN_REF_REQUIRED");
}

#[test]
fn bound_conversation_rejects_a_parent_from_another_native_branch_as_stale() {
    let mut resolver = resolver();
    let original = identity("usr", "conv-a", None);
    let current = identity("usr", "conv-b", None);

    let original_root = resolver
        .prepare_turn_initialize(&original, Some("shared-project"), None)
        .unwrap();
    resolver
        .commit_initialize_with_turn_ref(
            &original_root,
            "r_original",
            None,
            "I1",
            "S1",
            "brief-original",
            None,
            NOW,
        )
        .unwrap();

    let current_root = resolver
        .prepare_turn_initialize(&current, Some("shared-project"), None)
        .unwrap();
    resolver
        .commit_initialize_with_turn_ref(
            &current_root,
            "r_current",
            None,
            "I1",
            "S1",
            "brief-current",
            None,
            NOW,
        )
        .unwrap();

    let stale = resolver
        .prepare_turn_initialize(&current, None, Some("r_original"))
        .unwrap();
    let error = resolver
        .commit_initialize_with_turn_ref(
            &stale,
            "r_should_not_commit",
            Some("r_original"),
            "I1",
            "S1",
            "brief-stale",
            None,
            NOW,
        )
        .err().unwrap();
    assert_eq!(error.code(), "STALE_TURN_REF");
}

#[test]
fn explicit_alias_cannot_rebind_a_turn_reference_from_another_project() {
    let mut resolver = resolver();
    let first = identity("usr", "conv-a", None);
    let second = identity("usr", "conv-b", None);

    let first_root = resolver
        .prepare_turn_initialize(&first, Some("project-one"), None)
        .unwrap();
    resolver
        .commit_initialize_with_turn_ref(
            &first_root,
            "r_one",
            None,
            "I1",
            "S1",
            "brief-one",
            None,
            NOW,
        )
        .unwrap();

    let second_root = resolver
        .prepare_turn_initialize(&second, Some("project-two"), None)
        .unwrap();
    resolver
        .commit_initialize_with_turn_ref(
            &second_root,
            "r_two",
            None,
            "I2",
            "S2",
            "brief-two",
            None,
            NOW,
        )
        .unwrap();

    let prepared = resolver
        .prepare_turn_initialize(&second, Some("project-two"), Some("r_one"))
        .unwrap();
    let error = resolver
        .commit_initialize_with_turn_ref(
            &prepared,
            "r_mismatch",
            Some("r_one"),
            "I2",
            "S2",
            "brief-mismatch",
            None,
            NOW,
        )
        .err().unwrap();
    assert_eq!(error.code(), "TURN_PROJECT_MISMATCH");
}

#[test]
fn prepared_initialization_is_not_visible_until_commit() {
    let mut resolver = resolver();
    let request = identity("usr", "conv", None);

    let prepared = resolver
        .prepare_initialize(&request, Some("shared-project"))
        .unwrap();
    assert!(prepared.project.project_root.ends_with("shared-project"));
    assert_eq!(
        resolver.resolve_initialized(&request).err().unwrap().code(),
        "TURN_NOT_INITIALIZED"
    );
    assert_eq!(
        resolver.storage().effective_for_alias("shared-project"),
        None
    );

    resolver.commit_initialize(&prepared).unwrap();
    let (initialized, cached) = resolver.resolve_initialized(&request).unwrap();
    assert!(cached);
    assert_eq!(initialized.project_alias.as_deref(), Some("shared-project"));
}

#[test]
fn named_project_reuses_a_precreated_checkout_directory() {
    let mut resolver = resolver();
    let prepared = resolver
        .prepare_initialize(
            &identity("usr", "conv", None),
            Some("production-stress-test"),
        )
        .unwrap();
    assert_eq!(prepared.project.project_root, "/work/production-stress-test");
    let paths = project_layout(&prepared.project, '/');
    let mut created = CreatedProjectLayout::new();
    for (index, path) in paths.iter().enumerate() {
        let state = if path == "/work/production-stress-test" {
            PathState::Directory
        } else {
            PathState::Absent
        };
        if layout_step(index, path, state).unwrap() {
            created.add(path.clone());
        }
    }
    resolver.commit_initialize(&prepared).unwrap();
    assert!(!created
        .removal_order()
        .contains(&"/work/production-stress-test".to_owned()));
}

#[test]
fn named_project_rejects_a_checkout_path_that_is_a_file_without_binding() {
    let resolver = resolver();
    let request = identity("usr", "conv", None);
    let prepared = resolver
        .prepare_initialize(&request, Some("blocked-project"))
        .unwrap();
    let paths = project_layout(&prepared.project, '/');
    assert_eq!(paths[0], "/work/blocked-project");
    let error = layout_step(0, &paths[0], PathState::Other).err().unwrap();
    assert_eq!(error.code(), "INVALID_PROJECT_ALIAS");
    assert_eq!(
        resolver.resolve_initialized(&request).err().unwrap().code(),
        "TURN_NOT_INITIALIZED"
    );
}

#[test]
fn failed_new_project_commit_does_not_leave_orphan_checkout() {
    let mut resolver = resolver();

    let first = resolver
        .prepare_turn_initialize(&identity("usr-a", "conv-a", None), Some("first"), None)
        .unwrap();
    resolver
        .commit_initialize_with_turn_ref(
            &first,
            "r_duplicate",
            None,
            "I1",
            "S1",
            "brief-first",
            None,
            NOW,
        )
        .unwrap();

    let failed = resolver
        .prepare_turn_initialize(
            &identity("usr-b", "conv-b", None),
            Some("production-stress-test"),
            None,
        )
        .unwrap();
    let mut created = CreatedProjectLayout::new();
    for (index, path) in project_layout(&failed.project, '/').iter().enumerate() {
        if layout_step(index, path, PathState::Absent).unwrap() {
            created.add(path.clone());
        }
    }
    assert!(resolver
        .commit_initialize_with_turn_ref(
            &failed,
            "r_duplicate",
            None,
            "I2",
            "S2",
            "brief-failed",
            None,
            NOW,
        )
        .is_err());
    assert!(!resolver.keeps_layout(&failed));
    let removed = created.removal_order();
    assert!(removed.contains(&failed.project.project_root));
    assert!(removed.contains(&failed.project.metadata_root));
}

#[test]
fn concurrent_new_alias_commit_fails_closed_without_binding_loser() {
    let mut resolver = resolver();
    let first = identity("usr_a", "conv_a", None);
    let second = identity("usr_b", "conv_b", None);
    let prepared_first = resolver
        .prepare_initialize(&first, Some("shared-project"))
        .unwrap();
    let prepared_second = resolver
        .prepare_initialize(&second, Some("shared-project"))
        .unwrap();

    resolver.commit_initialize(&prepared_first).unwrap();
    let error = resolver.commit_initialize(&prepared_second).err().unwrap();
    assert_eq!(error.code(), "SERVER_BUSY");
    assert_eq!(
        resolver.resolve_initialized(&second).err().unwrap().code(),
        "TURN_NOT_INITIALIZED"
    );
}

#[test]
fn unsafe_aliases_are_rejected() {
    let mut resolver = resolver();
    for alias in [
        "../foo", "/foo", "foo/bar", r"foo\bar", ".", "..", "demo.", "CON", "con.txt", "NUL",
        "COM1", "com9.log", "LPT1", "lpt9.txt",
    ] {
        assert!(resolver.validate_alias(alias).is_err(), "{alias}");
    }
    for alias in ["COM0", "COM10", "LPT0", "LPT10", "console", "demo.txt"] {
        assert!(resolver.validate_alias(alias).is_ok(), "{alias}");
    }
}

#[test]
fn keys_are_names_of_directories() {
    assert!(is_valid_key("abc_9.x-Y"));
    for key in ["", ".", "..", "a/b", "a b", "\u{e9}"] {
        assert!(!is_valid_key(key), "{key}");
        assert!(ProjectKey::new(key.to_owned()).is_err(), "{key}");
    }
    let key = ProjectKey::new("demo".to_owned()).unwrap();
    assert_eq!(key.copy().as_str(), "demo");
}

#[test]
fn subjects_have_keys_of_their_own() {
    let digest: [u8; 32] = Sha256::digest(b"chatgpt-subject\0usr").into();
    assert_eq!(derive_subject_key("usr"), encode_project_key(digest));
    assert_eq!(derive_subject_key("usr").len(), 43);
    assert_ne!(derive_subject_key("usr"), derive_subject_key("other"));
}

#[test]
fn keys_leave_hyphens_out_of_the_digest() {
    assert_eq!(encode_project_key([0; 32]), "A".repeat(43));
    assert_eq!(encode_project_key([0xfb; 32]).matches('-').count(), 0);
    assert_eq!(encode_project_key([0xff; 32]), format!("{}8", "_".repeat(42)));
}

#[test]
fn long_and_reserved_aliases_are_refused() {
    assert!(validate_alias(&"a".repeat(128)).is_ok());
    assert!(validate_alias(&"a".repeat(129)).is_err());
    assert!(validate_alias("").is_err());
    assert_eq!(
        validate_alias("a b").err().unwrap().code(),
        "INVALID_PROJECT_ALIAS"
    );
    assert!(is_windows_reserved_alias("aux.txt"));
    assert!(!is_windows_reserved_alias("auxiliary"));
}

#[test]
fn paths_are_joined_once() {
    assert_eq!(join_path("/work", "a", '/'), "/work/a");
    assert_eq!(join_path("/work/", "a", '/'), "/work/a");
    assert_eq!(join_path("C:\\w", "a", '\\'), "C:\\w\\a");
}

#[test]
fn the_cache_of_projects_is_bounded() {
    let mut resolver = resolver();
    let template = resolver.resolve(&identity("usr", "conv", None)).unwrap();
    for index in 0..INITIALIZED_CACHE_MAX_ENTRIES + 3 {
        let mut project = resolver.resolve(&identity("usr", "conv", None)).unwrap();
        project.native_project_key = ProjectKey::new(format!("native-{index}")).unwrap();
        resolver.cache_initialized(&project);
    }
    assert_eq!(
        resolver.initialized_cache_entries(),
        INITIALIZED_CACHE_MAX_ENTRIES
    );
    assert_eq!(template.project_alias, None);
}

#[test]
fn a_layout_is_taken_down_in_reverse() {
    let mut created = CreatedProjectLayout::new();
    created.add("/a".to_owned());
    created.add("/a/b".to_owned());
    assert_eq!(
        created.removal_order(),
        vec!["/a/b".to_owned(), "/a".to_owned()]
    );
}

#[test]
fn every_alias_is_a_key() {
    for alias in ["a", "Release-1.0", "x_y", "COM10"] {
        assert!(validate_alias(alias).is_ok());
        assert!(is_valid_key(alias));
    }
}
