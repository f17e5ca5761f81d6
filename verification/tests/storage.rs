//! What is stored of projects: bindings, turns, notes, plans and tasks.
use codex_bridge::storage::migration::migrate_v4_to_v5;
use codex_bridge::storage::notes::{
    MemoryPage, Note, MEMORY_ARCHIVE_VALUE_MAX_BYTES, MEMORY_KEY_MAX_BYTES, MEMORY_MAX_ENTRIES,
    MEMORY_MAX_TOTAL_BYTES, MEMORY_RECALL_MAX_BYTES, MEMORY_RECALL_MAX_ENTRIES,
    MEMORY_VALUE_MAX_BYTES,
};
use codex_bridge::storage::plans::{
    decode_plan, encode_plan, PlanItemRecord, PlanRow, PLAN_EXPLANATION_MAX_BYTES,
    PLAN_ITEM_MAX_BYTES, PLAN_MAX_ITEMS,
};
use codex_bridge::storage::schema::{schema_step, validate_schema_v5, SchemaStep};
use codex_bridge::storage::tasks::{
    validate_task_id, TaskRecord, TASK_LIST_OUTPUT_MAX, TASK_MAX_ENTRIES, TASK_TITLE_MAX_BYTES,
};
use codex_bridge::storage::turns::TurnRefCommit;
use codex_bridge::storage::{ProjectRows, Storage};
use sha2::{Digest, Sha256};
use std::collections::BTreeMap;

const NOW: &str = "2026-01-01T00:00:00+00:00";

fn task(id: usize) -> TaskRecord {
    TaskRecord {
        id: format!("task_{id}"),
        title: format!("Task {id}"),
        status: "pending".to_owned(),
        details: None,
        parent_task: None,
        created_at: NOW.to_owned(),
        updated_at: NOW.to_owned(),
        started_at: None,
        completed_at: None,
    }
}

fn turn<'a>(turn_ref: &'a str, parent_turn_ref: Option<&'a str>) -> TurnRefCommit<'a> {
    TurnRefCommit {
        turn_ref,
        parent_turn_ref,
        force_full_brief: false,
        instruction_hash: "i",
        state_hash: "s",
        subject_key: "subject",
        brief_snapshot: "brief",
        state_snapshot: None,
    }
}

#[test]
fn new_project_cannot_claim_an_existing_effective_key_as_an_alias() {
    let mut storage = Storage::new();
    storage
        .commit_initialization("native-private", "OpaquePrivateKey", None, None, None)
        .unwrap();

    for alias in ["OpaquePrivateKey", "opaqueprivatekey"] {
        let error = storage
            .commit_initialization("native-named", alias, Some(alias), None, None)
            .err().unwrap();
        assert_eq!(error.code(), "PROJECT_PATH_COLLISION");
        assert_eq!(storage.effective_binding("native-named"), None);
        assert_eq!(storage.effective_for_alias(alias), None);
    }
}

#[test]
fn new_private_effective_keys_are_case_insensitively_unique() {
    let mut storage = Storage::new();
    storage
        .commit_initialization("native-one", "OpaquePrivateKey", None, None, None)
        .unwrap();
    let error = storage
        .commit_initialization("native-two", "opaqueprivatekey", None, None, None)
        .err().unwrap();
    assert_eq!(error.code(), "PROJECT_PATH_COLLISION");
    assert_eq!(storage.effective_binding("native-two"), None);
}

#[test]
fn turn_refs_form_a_native_conversation_chain() {
    let mut storage = Storage::new();
    let first = storage
        .commit_initialization_with_turn_ref(
            "native",
            "effective",
            None,
            None,
            None,
            TurnRefCommit {
                turn_ref: "r_first",
                parent_turn_ref: None,
                force_full_brief: false,
                instruction_hash: "instructions-one",
                state_hash: "state-one",
                subject_key: "subject",
                brief_snapshot: "brief-one",
                state_snapshot: Some("snapshot-one"),
            }, NOW,
    )
        .unwrap();
    assert_eq!(first.parent_turn_ref, None);
    assert_eq!(first.parent_instruction_hash, None);
    assert_eq!(first.parent_state_hash, None);
    assert_eq!(first.instruction_hash, "instructions-one");
    assert_eq!(first.state_hash, "state-one");

    let second = storage
        .commit_initialization_with_turn_ref(
            "native",
            "effective",
            None,
            Some("effective"),
            None,
            TurnRefCommit {
                turn_ref: "r_second",
                parent_turn_ref: Some("r_first"),
                force_full_brief: false,
                instruction_hash: "instructions-two",
                state_hash: "state-two",
                subject_key: "subject",
                brief_snapshot: "brief-two",
                state_snapshot: Some("snapshot-two"),
            }, NOW,
    )
        .unwrap();
    assert_eq!(second.parent_turn_ref.as_deref(), Some("r_first"));
    assert_eq!(
        second.parent_instruction_hash.as_deref(),
        Some("instructions-one")
    );
    assert_eq!(second.parent_state_hash.as_deref(), Some("state-one"));

    let rows = storage
        .turns
        .iter()
        .filter(|row| row.native_key == "native")
        .map(|row| {
            (
                row.turn_ref.clone(),
                row.parent_turn_ref.clone(),
                row.effective_key.clone(),
                row.instruction_hash.clone(),
                row.state_hash.clone(),
            )
        })
        .collect::<Vec<_>>();
    assert_eq!(rows.len(), 2);
    assert_eq!(
        rows[0],
        (
            "r_first".to_owned(),
            None,
            "effective".to_owned(),
            "instructions-one".to_owned(),
            "state-one".to_owned()
        )
    );
    assert_eq!(
        rows[1],
        (
            "r_second".to_owned(),
            Some("r_first".to_owned()),
            "effective".to_owned(),
            "instructions-two".to_owned(),
            "state-two".to_owned()
        )
    );
}

#[test]
fn duplicate_parent_is_idempotent_for_one_native_conversation() {
    let mut storage = Storage::new();
    storage
        .commit_initialization_with_turn_ref(
            "native",
            "effective",
            None,
            None,
            None,
            TurnRefCommit {
                turn_ref: "r_parent",
                parent_turn_ref: None,
                force_full_brief: false,
                instruction_hash: "instructions-parent",
                state_hash: "state-parent",
                subject_key: "subject",
                brief_snapshot: "brief-parent",
                state_snapshot: Some("snapshot-parent"),
            }, NOW,
    )
        .unwrap();
    let first = storage
        .commit_initialization_with_turn_ref(
            "native",
            "effective",
            None,
            Some("effective"),
            None,
            TurnRefCommit {
                turn_ref: "r_child",
                parent_turn_ref: Some("r_parent"),
                force_full_brief: false,
                instruction_hash: "instructions-child",
                state_hash: "state-child",
                subject_key: "subject",
                brief_snapshot: "brief-child",
                state_snapshot: Some("snapshot-child"),
            }, NOW,
    )
        .unwrap();
    let duplicate = storage
        .commit_initialization_with_turn_ref(
            "native",
            "effective",
            None,
            Some("effective"),
            None,
            TurnRefCommit {
                turn_ref: "r_other_candidate",
                parent_turn_ref: Some("r_parent"),
                force_full_brief: false,
                instruction_hash: "instructions-other",
                state_hash: "state-other",
                subject_key: "subject",
                brief_snapshot: "brief-other",
                state_snapshot: Some("snapshot-other"),
            }, NOW,
    )
        .unwrap();
    assert_eq!(first.turn_ref, "r_child");
    assert_eq!(duplicate.turn_ref, "r_child");
    assert!(duplicate.reused_existing_turn);
    assert_eq!(duplicate.instruction_hash, "instructions-child");
    assert_eq!(duplicate.state_hash, "state-child");
    assert_eq!(duplicate.brief_snapshot.as_deref(), Some("brief-child"));
    assert_eq!(duplicate.state_snapshot, None);
}

#[test]
fn turn_ref_insert_failure_rolls_back_initialization_binding() {
    let mut storage = Storage::new();
    storage
        .commit_initialization_with_turn_ref(
            "native-one",
            "effective-one",
            None,
            None,
            None,
            TurnRefCommit {
                turn_ref: "r_collision",
                parent_turn_ref: None,
                force_full_brief: false,
                instruction_hash: "instructions-one",
                state_hash: "state-one",
                subject_key: "subject-one",
                brief_snapshot: "brief-one",
                state_snapshot: None,
            }, NOW,
    )
        .unwrap();

    let error = storage
        .commit_initialization_with_turn_ref(
            "native-two",
            "effective-two",
            None,
            None,
            None,
            TurnRefCommit {
                turn_ref: "r_collision",
                parent_turn_ref: None,
                force_full_brief: false,
                instruction_hash: "instructions-two",
                state_hash: "state-two",
                subject_key: "subject-two",
                brief_snapshot: "brief-two",
                state_snapshot: None,
            }, NOW,
    )
        .err().unwrap();
    assert_eq!(error.code(), "STORAGE_ERROR");
    assert_eq!(storage.effective_binding("native-two"), None);
}

#[test]
fn memory_rejects_large_keys_and_values() {
    let mut storage = Storage::new();
    let key_error = storage
        .memory_set("p", &"k".repeat(MEMORY_KEY_MAX_BYTES + 1), "v", NOW)
        .err().unwrap();
    assert_eq!(key_error.code(), "INPUT_TOO_LARGE");
    let value_error = storage
        .memory_set("p", "key", &"v".repeat(MEMORY_VALUE_MAX_BYTES + 1), NOW)
        .err().unwrap();
    assert_eq!(value_error.code(), "INPUT_TOO_LARGE");
}

#[test]
fn memory_entry_quota_is_atomic_and_updates_still_work() {
    let mut storage = Storage::new();
    for index in 0..MEMORY_MAX_ENTRIES {
        storage
            .memory_set("p", &format!("key-{index:04}"), "v", NOW)
            .expect("seed memory quota");
    }
    let error = storage
        .memory_set("p", "one-too-many", "v", NOW)
        .err().unwrap();
    assert_eq!(error.code(), "RESOURCE_LIMIT_EXCEEDED");
    storage
        .memory_set("p", "key-0000", "updated", NOW)
        .expect("update existing entry at quota");
    assert_eq!(
        storage.memory_get("p", "key-0000").expect("get").as_deref(),
        Some("updated")
    );
}

#[test]
fn archive_recall_page_has_entry_and_byte_bounds() {
    let mut entry_storage = Storage::new();
    for index in 0..MEMORY_RECALL_MAX_ENTRIES + 4 {
        entry_storage
            .memory_archive_set("p", &format!("key-{index:04}"), "value", NOW)
            .unwrap();
    }
    let (page, hash) = entry_storage
        .memory_archive_recall_page_from_snapshot("p", 0, MEMORY_RECALL_MAX_ENTRIES, None)
        .expect("recall");
    assert_eq!(page.notes.len(), MEMORY_RECALL_MAX_ENTRIES);
    assert_eq!(page.total, MEMORY_RECALL_MAX_ENTRIES + 4);
    assert!(page.truncated);
    assert_eq!(page.next_offset, Some(MEMORY_RECALL_MAX_ENTRIES));
    let (tail, _) = entry_storage
        .memory_archive_recall_page_from_snapshot(
            "p",
            page.next_offset.unwrap(),
            16,
            Some(&hash),
        )
        .expect("tail page");
    assert_eq!(tail.notes.len(), 4);
    assert!(!tail.truncated);
    assert_eq!(tail.next_offset, None);

    let page_bytes = |page: &MemoryPage| {
        page.notes
            .iter()
            .map(|note| note.key.len() + note.value.len())
            .sum::<usize>()
    };
    let seed_to_bytes = |storage: &mut Storage, project: &str, target_bytes: usize| {
        let max_value = "v".repeat(MEMORY_ARCHIVE_VALUE_MAX_BYTES);
        for key in ["a", "b", "c"] {
            storage
                .memory_archive_set(project, key, &max_value, NOW)
                .unwrap();
        }
        let final_value_bytes = target_bytes
            .checked_sub(4 + 3 * MEMORY_ARCHIVE_VALUE_MAX_BYTES)
            .expect("target accommodates three full values and four keys");
        assert!(final_value_bytes <= MEMORY_ARCHIVE_VALUE_MAX_BYTES);
        storage
            .memory_archive_set(project, "d", &"v".repeat(final_value_bytes), NOW)
            .unwrap();
    };

    let mut under_storage = Storage::new();
    seed_to_bytes(&mut under_storage, "under", MEMORY_RECALL_MAX_BYTES - 1);
    let (under, _) = under_storage
        .memory_archive_recall_page_from_snapshot("under", 0, MEMORY_RECALL_MAX_ENTRIES, None)
        .expect("recall below byte budget");
    assert_eq!(under.notes.len(), 4);
    assert_eq!(page_bytes(&under), MEMORY_RECALL_MAX_BYTES - 1);
    assert!(!under.truncated);
    assert_eq!(under.next_offset, None);

    let mut exact_storage = Storage::new();
    seed_to_bytes(&mut exact_storage, "exact", MEMORY_RECALL_MAX_BYTES);
    let (exact, _) = exact_storage
        .memory_archive_recall_page_from_snapshot("exact", 0, MEMORY_RECALL_MAX_ENTRIES, None)
        .expect("recall at exact byte budget");
    assert_eq!(exact.notes.len(), 4);
    assert_eq!(page_bytes(&exact), MEMORY_RECALL_MAX_BYTES);
    assert!(!exact.truncated);
    assert_eq!(exact.next_offset, None);

    let mut over_storage = Storage::new();
    seed_to_bytes(&mut over_storage, "over", MEMORY_RECALL_MAX_BYTES);
    over_storage.memory_archive_set("over", "e", "x", NOW).unwrap();
    let (over, over_hash) = over_storage
        .memory_archive_recall_page_from_snapshot("over", 0, MEMORY_RECALL_MAX_ENTRIES, None)
        .expect("recall over byte budget");
    assert_eq!(over.notes.len(), 4);
    assert_eq!(over.total, 5);
    assert_eq!(page_bytes(&over), MEMORY_RECALL_MAX_BYTES);
    assert!(over.truncated);
    assert_eq!(over.next_offset, Some(4));

    let (over_tail, _) = over_storage
        .memory_archive_recall_page_from_snapshot(
            "over",
            over.next_offset.unwrap(),
            MEMORY_RECALL_MAX_ENTRIES,
            Some(&over_hash),
        )
        .expect("recall over-budget continuation");
    assert_eq!(over_tail.notes.len(), 1);
    assert_eq!(page_bytes(&over_tail), 2);
    assert!(!over_tail.truncated);
    assert_eq!(over_tail.next_offset, None);
}

#[test]
fn regression_memory_pagination_must_not_repeat_rows_after_insert_before_offset() {
    let mut storage = Storage::new();
    storage.memory_set("p", "b", "B", NOW).unwrap();
    storage.memory_set("p", "d", "D", NOW).unwrap();

    let (first, snapshot_hash) = storage
        .memory_recall_page_from_snapshot("p", 0, 1, None)
        .unwrap();
    assert_eq!(first.notes[0].key, "b");
    let next = first.next_offset.expect("second page");

    // A concurrent/new note sorting before the first page shifts OFFSET 1.
    // A continuation pinned to the first page's snapshot must fail rather
    // than return a duplicate/skip from a shifted ordered set.
    storage.memory_set("p", "a", "A", NOW).unwrap();
    let error = storage
        .memory_recall_page_from_snapshot("p", next, 1, Some(&snapshot_hash))
        .err().unwrap();
    assert_eq!(error.code(), "PAGINATION_STALE");
}

#[test]
fn active_memory_semantic_hash_excludes_archive_history() {
    let mut storage = Storage::new();
    storage.memory_set("p", "active", "before", NOW).unwrap();
    let before = storage.memory_semantic_hash("p").unwrap();
    storage
        .memory_archive_set("p", "historical", "after", NOW)
        .unwrap();
    let after = storage.memory_semantic_hash("p").unwrap();
    assert_eq!(before, after);
}

#[test]
fn memory_aggregate_quota_is_enforced_atomically() {
    let mut storage = Storage::new();
    let existing_key = "legacy";
    let existing_value = "v".repeat(MEMORY_MAX_TOTAL_BYTES - existing_key.len());
    storage
        .memory_set("p", existing_key, &existing_value, NOW)
        .expect("seed exact aggregate limit");
    let error = storage
        .memory_set("p", "new", "value", NOW)
        .err().unwrap();
    assert_eq!(error.code(), "RESOURCE_LIMIT_EXCEEDED");
    assert!(error.message().contains("aggregate limit"));
    assert_eq!(
        storage
            .memory_get("p", existing_key)
            .expect("existing memory"),
        Some(existing_value)
    );
    assert_eq!(storage.memory_get("p", "new").expect("new memory"), None);
}

#[test]
fn plan_round_trip_is_canonical() {
    let mut storage = Storage::new();
    let saved = storage
        .plan_set(
            "p",
            Some("why".to_owned()),
            vec![PlanItemRecord {
                step: "build".to_owned(),
                status: "in_progress".to_owned(),
            }], NOW,
    )
        .expect("save plan");
    let loaded = storage.plan_get("p").expect("load plan").expect("present");
    assert_eq!(loaded, saved);
    assert_eq!(loaded.explanation.as_deref(), Some("why"));
    assert_eq!(loaded.items[0].status, "in_progress");
}

#[test]
fn plan_rejects_multiple_in_progress_steps() {
    let mut storage = Storage::new();
    let items = vec![
        PlanItemRecord {
            step: "one".to_owned(),
            status: "in_progress".to_owned(),
        },
        PlanItemRecord {
            step: "two".to_owned(),
            status: "in_progress".to_owned(),
        },
    ];
    let error = storage
        .plan_set("p", None, items, NOW)
        .err().unwrap();
    assert_eq!(error.code(), "INVALID_INPUT");
}

#[test]
fn plan_rejects_oversized_steps() {
    let mut storage = Storage::new();
    let error = storage
        .plan_set(
            "p",
            None,
            vec![PlanItemRecord {
                step: "x".repeat(PLAN_ITEM_MAX_BYTES + 1),
                status: "pending".to_owned(),
            }], NOW,
    )
        .err().unwrap();
    assert_eq!(error.code(), "INPUT_TOO_LARGE");
}

#[test]
fn memory_update_replaces_value_without_creating_duplicate_entry() {
    let mut storage = Storage::new();
    storage.memory_set("p", "key", "first", NOW).unwrap();
    storage.memory_set("p", "key", "second", NOW).unwrap();
    assert_eq!(storage.memory_count("p"), 1);
    assert_eq!(
        storage.memory_get("p", "key").unwrap().as_deref(),
        Some("second")
    );
}

#[test]
fn memory_recall_is_sorted_by_key() {
    let mut storage = Storage::new();
    storage.memory_set("p", "zeta", "last", NOW).unwrap();
    storage.memory_set("p", "alpha", "first", NOW).unwrap();
    storage.memory_set("p", "middle", "middle", NOW).unwrap();
    let page = storage
        .memory_recall_page_from("p", 0, MEMORY_RECALL_MAX_ENTRIES)
        .unwrap();
    let keys = page
        .notes
        .into_iter()
        .map(|note| note.key)
        .collect::<Vec<_>>();
    assert_eq!(keys, vec!["alpha", "middle", "zeta"]);
}

#[test]
fn plan_updates_do_not_disturb_memory_notes() {
    let mut storage = Storage::new();
    storage.memory_set("p", "decision", "keep me", NOW).unwrap();
    storage
        .plan_set(
            "p",
            Some("why".to_owned()),
            vec![PlanItemRecord {
                step: "one".to_owned(),
                status: "pending".to_owned(),
            }], NOW,
    )
        .unwrap();
    assert_eq!(
        storage.memory_get("p", "decision").unwrap().as_deref(),
        Some("keep me")
    );
}

#[test]
fn rejected_plan_does_not_overwrite_last_valid_plan() {
    let mut storage = Storage::new();
    let valid = storage
        .plan_set(
            "p",
            Some("valid".to_owned()),
            vec![PlanItemRecord {
                step: "keep".to_owned(),
                status: "in_progress".to_owned(),
            }], NOW,
    )
        .unwrap();
    let error = storage
        .plan_set(
            "p",
            Some("invalid".to_owned()),
            vec![
                PlanItemRecord {
                    step: "a".to_owned(),
                    status: "in_progress".to_owned(),
                },
                PlanItemRecord {
                    step: "b".to_owned(),
                    status: "in_progress".to_owned(),
                },
            ], NOW,
    )
        .err().unwrap();
    assert_eq!(error.code(), "INVALID_INPUT");
    assert_eq!(storage.plan_get("p").unwrap().unwrap(), valid);
}

#[test]
fn oversized_memory_write_preserves_existing_notes() {
    let mut storage = Storage::new();
    storage.memory_set("p", "keep", "small", NOW).unwrap();
    let error = storage
        .memory_set("p", "too-big", &"x".repeat(MEMORY_VALUE_MAX_BYTES + 1), NOW)
        .err().unwrap();
    assert_eq!(error.code(), "INPUT_TOO_LARGE");
    assert_eq!(
        storage.memory_get("p", "keep").unwrap().as_deref(),
        Some("small")
    );
    assert_eq!(storage.memory_get("p", "too-big").unwrap(), None);
}

#[test]
fn plan_clear_reports_presence_and_is_idempotent() {
    let mut storage = Storage::new();
    assert!(!storage.plan_clear("p"));
    storage
        .plan_set(
            "p",
            None,
            vec![PlanItemRecord {
                step: "one".to_owned(),
                status: "completed".to_owned(),
            }], NOW,
    )
        .unwrap();
    assert!(storage.plan_clear("p"));
    assert!(!storage.plan_clear("p"));
    assert!(storage.plan_get("p").unwrap().is_none());
}

#[test]
fn storage_initializes_and_persists_schema_version() {
    assert!(matches!(schema_step(0).unwrap(), SchemaStep::Create));
    assert!(matches!(schema_step(5).unwrap(), SchemaStep::Ready));
    let columns: Vec<String> = [
        "turn_ref",
        "native_key",
        "effective_key",
        "subject_key",
        "parent_turn_ref",
        "instruction_hash",
        "state_hash",
        "brief_snapshot",
        "state_snapshot",
        "created_at",
    ]
    .iter()
    .map(|column| column.to_string())
    .collect();
    let aliases = "CREATE TABLE aliases(alias TEXT PRIMARY KEY collate nocase)";
    validate_schema_v5(&columns, aliases, 1).unwrap();
    for missing in 0..columns.len() {
        let mut fewer = columns.clone();
        let column = fewer.remove(missing);
        let error = validate_schema_v5(&fewer, aliases, 1).err().unwrap();
        assert_eq!(error.code(), "STORAGE_SCHEMA_UNSUPPORTED");
        assert!(error.message().contains(&column));
    }
    assert!(validate_schema_v5(&columns, "CREATE TABLE aliases(alias TEXT)", 1).is_err());
    assert!(validate_schema_v5(&columns, aliases, 0).is_err());
}

#[test]
fn old_schema_versions_are_rejected_instead_of_migrated() {
    for version in [1_i64, 2_i64, 3_i64] {
        let error = schema_step(version).err().unwrap();
        assert_eq!(error.code(), "STORAGE_SCHEMA_UNSUPPORTED");
        assert!(error.message().contains("fresh schema version 5"));
    }
}

#[test]
fn storage_rejects_newer_schema_versions() {
    let error = schema_step(6).err().unwrap();
    assert_eq!(error.code(), "STORAGE_SCHEMA_UNSUPPORTED");
}

#[test]
fn schema_v4_memory_overflow_is_migrated_to_archive_without_loss() {
    assert!(matches!(schema_step(4).unwrap(), SchemaStep::Migrate));
    let mut seeded = Vec::new();
    let mut memories: Vec<Note> = Vec::new();
    for index in 0..MEMORY_MAX_ENTRIES + 2 {
        let key = format!("key-{index:04}");
        let value = match index {
            1 => "value-0001-first-overflow-boundary".to_owned(),
            2 => "value-0002-last-active-boundary".to_owned(),
            _ => format!("value-{index:04}-payload"),
        };
        let updated_at = format!("2026-{:02}-{:02}T00:00:00Z", 1 + index / 28, 1 + index % 28);
        memories.push(Note {
            key: key.clone(),
            value: value.clone(),
            updated_at,
        });
        seeded.push((key, value));
    }

    let (memories, archive) = migrate_v4_to_v5(&memories, &Vec::new()).unwrap();
    let mut storage = Storage::new();
    storage.projects.push(ProjectRows {
        project_key: "p".to_owned(),
        memories,
        archive,
        plan: None,
        tasks: Vec::new(),
    });
    let (active, _) = storage
        .memory_recall_page_from_snapshot("p", 0, MEMORY_RECALL_MAX_ENTRIES, None)
        .unwrap();
    let (archive, _) = storage
        .memory_archive_recall_page_from_snapshot("p", 0, MEMORY_RECALL_MAX_ENTRIES, None)
        .unwrap();

    assert_eq!(active.total, MEMORY_MAX_ENTRIES);
    assert_eq!(archive.total, 2);
    assert!(!active.truncated);
    assert!(!archive.truncated);

    let active_by_key = active
        .notes
        .iter()
        .map(|note| (note.key.clone(), note.value.clone()))
        .collect::<BTreeMap<_, _>>();
    let archive_by_key = archive
        .notes
        .iter()
        .map(|note| (note.key.clone(), note.value.clone()))
        .collect::<BTreeMap<_, _>>();
    let expected_active = seeded.iter().skip(2).cloned().collect::<BTreeMap<_, _>>();
    let expected_archive = seeded.iter().take(2).cloned().collect::<BTreeMap<_, _>>();

    assert_eq!(active_by_key, expected_active);
    assert_eq!(archive_by_key, expected_archive);
    assert_eq!(
        active_by_key.get("key-0002").map(String::as_str),
        Some("value-0002-last-active-boundary")
    );
    assert_eq!(
        archive_by_key.get("key-0001").map(String::as_str),
        Some("value-0001-first-overflow-boundary")
    );

    let mut combined = active_by_key.clone();
    for (key, value) in &archive_by_key {
        assert!(
            combined.insert(key.clone(), value.clone()).is_none(),
            "memory key {key} exists in both active and archive after migration"
        );
    }
    assert_eq!(combined, seeded.into_iter().collect::<BTreeMap<_, _>>());
}

#[test]
fn legacy_string_array_plan_is_migrated_on_read() {
    let mut storage = Storage::new();
    storage.projects.push(ProjectRows {
        project_key: "p".to_owned(),
        memories: Vec::new(),
        archive: Vec::new(),
        plan: Some(PlanRow {
            value: r#"["inspect","implement"]"#.to_owned(),
            updated_at: "2026-01-01T00:00:00Z".to_owned(),
        }),
        tasks: Vec::new(),
    });
    let plan = storage.plan_get("p").expect("read").expect("present");
    assert_eq!(plan.items.len(), 2);
    assert!(plan.items.iter().all(|item| item.status == "pending"));
}

#[test]
fn task_quota_and_text_limits_are_enforced() {
    let mut storage = Storage::new();
    let mut oversized = task(0);
    oversized.title = "x".repeat(TASK_TITLE_MAX_BYTES + 1);
    assert_eq!(
        storage
            .task_add("oversized", &oversized)
            .err()
            .unwrap()
            .code(),
        "INPUT_TOO_LARGE"
    );
    for index in 0..TASK_MAX_ENTRIES {
        storage.task_add("p", &task(index)).expect("seed task quota");
    }
    let error = storage
        .task_add("p", &task(TASK_MAX_ENTRIES))
        .err()
        .unwrap();
    assert_eq!(error.code(), "RESOURCE_LIMIT_EXCEEDED");
    assert_eq!(storage.task_summary("p").total, TASK_MAX_ENTRIES);
    assert_eq!(
        storage.task_list_limited("p", TASK_LIST_OUTPUT_MAX).len(),
        TASK_LIST_OUTPUT_MAX
    );
}

#[test]
fn reopening_storage_preserves_canonical_plan_and_state() {
    let mut first = Storage::new();
    first.memory_set("p", "key", "value", NOW).expect("memory");
    first
        .plan_set(
            "p",
            None,
            vec![PlanItemRecord {
                step: "persist".to_owned(),
                status: "completed".to_owned(),
            }],
            NOW,
        )
        .expect("plan");
    let mut reopened = Storage::new();
    reopened.projects = first.projects;
    assert_eq!(
        reopened.memory_get("p", "key").expect("memory").as_deref(),
        Some("value")
    );
    assert_eq!(
        reopened
            .plan_get("p")
            .expect("plan")
            .expect("present")
            .items[0]
            .status,
        "completed"
    );
}

#[test]
fn deleting_missing_memory_is_false_and_existing_delete_persists() {
    let mut storage = Storage::new();
    assert!(!storage.memory_delete("p", "ghost").unwrap());
    storage.memory_set("p", "key", "value", NOW).unwrap();
    assert!(storage.memory_delete("p", "key").unwrap());
    let mut reopened = Storage::new();
    reopened.projects = storage.projects;
    assert_eq!(reopened.memory_get("p", "key").unwrap(), None);
}

#[test]
fn tasks_change_and_leave() {
    let mut storage = Storage::new();
    storage.task_add("p", &task(1)).unwrap();
    storage.task_add("p", &task(2)).unwrap();
    assert_eq!(
        storage.task_add("p", &task(1)).err().unwrap().code(),
        "STORAGE_ERROR"
    );
    let later = "2026-01-02T00:00:00+00:00";
    assert!(storage
        .task_update("p", "task_1", "in_progress", Some("New"), None, later)
        .unwrap());
    let listed = storage.task_list("p");
    let first = listed.iter().find(|task| task.id == "task_1").unwrap();
    assert_eq!(first.title, "New");
    assert_eq!(first.status, "in_progress");
    assert_eq!(first.started_at.as_deref(), Some(later));
    assert_eq!(first.completed_at, None);
    assert!(storage
        .task_update("p", "task_1", "completed", None, Some("done"), later)
        .unwrap());
    assert!(!storage
        .task_update("p", "ghost", "completed", None, None, later)
        .unwrap());
    let summary = storage.task_summary("p");
    assert_eq!(summary.completed, 1);
    assert_eq!(summary.pending, 1);
    assert_eq!(summary.total, 2);
    assert!(storage.task_remove("p", "task_1").unwrap());
    assert!(!storage.task_remove("p", "task_1").unwrap());
    assert_eq!(storage.task_list("p").len(), 1);
    assert!(validate_task_id("").is_err());
    assert!(storage
        .task_update("p", "task_2", "unheard-of", None, None, later)
        .is_err());
}

#[test]
fn plans_have_limits() {
    let mut storage = Storage::new();
    let item = |status: &str| PlanItemRecord {
        step: "s".to_owned(),
        status: status.to_owned(),
    };
    let many = vec![item("pending"); PLAN_MAX_ITEMS + 1];
    assert!(storage.plan_set("p", None, many, NOW).is_err());
    assert!(storage.plan_set("p", None, vec![item("odd")], NOW).is_err());
    let long = "x".repeat(PLAN_EXPLANATION_MAX_BYTES + 1);
    assert!(storage
        .plan_set("p", Some(long), vec![item("pending")], NOW)
        .is_err());
    let saved = storage
        .plan_set("p", None, vec![item("pending")], NOW)
        .unwrap();
    let encoded = encode_plan(&saved).unwrap();
    assert_eq!(decode_plan(&encoded, NOW.to_owned()).unwrap(), saved);
    assert!(decode_plan("{", NOW.to_owned()).is_err());
    assert!(decode_plan("7", NOW.to_owned()).is_err());
}

#[test]
fn the_hash_of_notes_is_that_of_their_keys_and_values() {
    let mut storage = Storage::new();
    storage.memory_set("p", "b", "two", NOW).unwrap();
    storage.memory_set("p", "a", "one", NOW).unwrap();
    let hash = storage.memory_semantic_hash("p").unwrap();
    assert_eq!(hash.len(), 64);
    assert!(hash.chars().all(|c| c.is_ascii_hexdigit()));
    storage.memory_set("p", "a", "one", "later").unwrap();
    assert_eq!(storage.memory_semantic_hash("p").unwrap(), hash);
    storage.memory_set("p", "a", "other", NOW).unwrap();
    assert_ne!(storage.memory_semantic_hash("p").unwrap(), hash);
    let mut hasher = Sha256::new();
    hasher.update(b"codexbridge-memory-v1\0");
    for (key, value) in [("a", "one"), ("b", "two")] {
        hasher.update((key.len() as u64).to_be_bytes());
        hasher.update(key.as_bytes());
        hasher.update((value.len() as u64).to_be_bytes());
        hasher.update(value.as_bytes());
    }
    let expected: String = hasher
        .finalize()
        .iter()
        .map(|byte| format!("{byte:02x}"))
        .collect();
    assert_eq!(hash, expected);
}

#[test]
fn a_project_is_read_as_a_whole() {
    let mut storage = Storage::new();
    storage.memory_set("p", "k", "v", NOW).unwrap();
    let (page, hash, plan) = storage.project_state_read("p").unwrap();
    assert_eq!(page.notes[0].key, "k");
    assert_eq!(page.notes[0].value, "v");
    assert_eq!(hash, storage.memory_semantic_hash("p").unwrap());
    assert_eq!(plan, None);
    assert_eq!(storage.memory_list("p"), vec!["k".to_owned()]);
    assert_eq!(storage.memory_recall_page("p").unwrap().total, 1);
    assert_eq!(storage.memory_list("other").len(), 0);
}

#[test]
fn the_archive_is_read_written_and_cleared() {
    let mut storage = Storage::new();
    storage.memory_archive_set("p", "k", "v", NOW).unwrap();
    assert_eq!(
        storage.memory_archive_get("p", "k").unwrap().as_deref(),
        Some("v")
    );
    assert_eq!(storage.memory_get("p", "k").unwrap(), None);
    assert!(storage.memory_archive_delete("p", "k").unwrap());
    assert!(!storage.memory_archive_delete("p", "k").unwrap());
    let large = "v".repeat(MEMORY_ARCHIVE_VALUE_MAX_BYTES + 1);
    assert_eq!(
        storage
            .memory_archive_set("p", "k", &large, NOW)
            .err()
            .unwrap()
            .code(),
        "INPUT_TOO_LARGE"
    );
}

#[test]
fn commits_that_are_out_of_date_change_nothing() {
    let mut storage = Storage::new();
    storage
        .commit_initialization_with_turn_ref("n", "e", None, None, None, turn("r_1", None), NOW)
        .unwrap();
    let refusals = [
        (
            storage
                .commit_initialization_with_turn_ref(
                    "n",
                    "e",
                    None,
                    Some("e"),
                    None,
                    turn("r_2", None),
                    NOW,
                )
                .err()
                .unwrap(),
            "PREVIOUS_TURN_REF_REQUIRED",
        ),
        (
            storage
                .commit_initialization_with_turn_ref(
                    "n",
                    "e",
                    None,
                    Some("e"),
                    None,
                    turn("r_2", Some("r_0")),
                    NOW,
                )
                .err()
                .unwrap(),
            "TURN_REF_NOT_FOUND",
        ),
        (
            storage
                .commit_initialization("n", "f", None, Some("f"), None)
                .err()
                .unwrap(),
            "SERVER_BUSY",
        ),
    ];
    for (error, code) in refusals {
        assert_eq!(error.code(), code);
    }
    assert_eq!(storage.turns.len(), 1);
    assert_eq!(storage.effective_binding("n").as_deref(), Some("e"));
    assert_eq!(
        storage
            .turn_ref_effective_for_subject("r_1", "subject")
            .as_deref(),
        Some("e")
    );
    assert_eq!(storage.turn_ref_effective_for_subject("r_1", "other"), None);
}

#[test]
fn aliases_are_bound_once() {
    let mut storage = Storage::new();
    assert_eq!(storage.ensure_binding("n"), "n");
    assert_eq!(storage.ensure_binding("n"), "n");
    let (effective, joined) = storage.bind_alias("n", "Demo");
    assert_eq!(effective, "n");
    assert!(!joined);
    let (effective, joined) = storage.bind_alias("m", "demo");
    assert_eq!(effective, "n");
    assert!(joined);
    assert_eq!(storage.effective_for_alias("DEMO").as_deref(), Some("n"));
    assert_eq!(storage.alias_for_effective("n").as_deref(), Some("Demo"));
    assert_eq!(storage.alias_for_effective("x"), None);
}

#[test]
fn a_conversation_goes_on_from_its_last_turn() {
    let mut storage = Storage::new();
    assert_eq!(storage.continuity_parent_for_bound_native("n", None), None);
    storage
        .commit_initialization_with_turn_ref("n", "e", None, None, None, turn("r_1", None), NOW)
        .unwrap();
    storage
        .commit_initialization_with_turn_ref(
            "n",
            "e",
            None,
            Some("e"),
            None,
            turn("r_2", Some("r_1")),
            NOW,
        )
        .unwrap();
    for (requested, expected) in [
        (None, "r_2"),
        (Some("r_2"), "r_2"),
        (Some("r_1"), "r_1"),
        (Some("unknown"), "r_2"),
    ] {
        assert_eq!(
            storage
                .continuity_parent_for_bound_native("n", requested)
                .as_deref(),
            Some(expected)
        );
    }
}
