use api_rs::backend::{Command, Reply, Write};
use api_rs::cache::{Action, MigrationReport, Outcome, Storage, StoreError, Task};
use api_rs::codec::{DecodeError, DecodeErrorKind, OptionalPlayerInfo, RawValue};
use api_rs::ident::PlayerId;
use api_rs::memory::MemoryBackend;
use api_rs::migrate::sort_legacy;
use api_rs::tiers::PlayerInfo;

const NOW: u64 = 1_700_000_000;

fn id(n: u128) -> PlayerId {
    PlayerId(0x550e8400_e29b_41d4_a716_446655440000 + n)
}

fn legacy_key(n: u128) -> String {
    format!("tiers-v1-profile:{}", id(n).to_text())
}

fn current_key(n: u128) -> String {
    format!("tiers-v2-profile:{}", id(n).to_text())
}

fn unknown_bytes() -> Vec<u8> {
    OptionalPlayerInfo::Unknown.encode()
}

fn profile(n: u128) -> PlayerInfo {
    PlayerInfo {
        uuid: id(n),
        name: format!("player{}", n),
        rankings: vec![],
        region: "NA".to_string(),
        points: n as u64,
        overall: 1,
        badges: vec![],
    }
}

fn put(backend: &mut MemoryBackend, key: &str, value: Vec<u8>, ttl: u64, now: u64) {
    let write = Command::Write(Write::Put { key: key.to_string(), value, ttl });
    assert_eq!(backend.respond(write, now), Reply::Done);
}

fn get(backend: &mut MemoryBackend, key: &str, now: u64) -> RawValue {
    match backend.respond(Command::Get { key: key.to_string() }, now) {
        Reply::Value(v) => v,
        other => panic!("unexpected reply {:?}", other),
    }
}

fn score(backend: &mut MemoryBackend, n: u128) -> Option<u64> {
    let ask = Command::SortedSetScoreOf {
        set: "tiers-v2-unknown".to_string(),
        member: id(n).to_text(),
    };
    match backend.respond(ask, NOW) {
        Reply::Score(score) => score,
        other => panic!("unexpected reply {:?}", other),
    }
}

fn members(backend: &mut MemoryBackend) -> Vec<String> {
    let ask = Command::SortedSetRangeByScore { set: "tiers-v2-unknown".to_string(), above: 0 };
    match backend.respond(ask, NOW) {
        Reply::Members(mut list) => {
            list.sort();
            list
        },
        other => panic!("unexpected reply {:?}", other),
    }
}

fn current_keys(backend: &mut MemoryBackend, now: u64) -> Vec<String> {
    let mut list = Vec::new();
    let mut cursor = 0;
    loop {
        let step = Command::ScanMatch { prefix: "tiers-v2-profile:".to_string(), cursor };
        match backend.respond(step, now) {
            Reply::Page { cursor: next, mut keys } => {
                list.append(&mut keys);
                cursor = next;
            },
            other => panic!("unexpected reply {:?}", other),
        }
        if cursor == 0 {
            list.sort();
            list.dedup();
            return list;
        }
    }
}

fn migrating(seen: Vec<String>) -> Task {
    Task::MigrateScan { now: NOW, seen, known: vec![], unknown: vec![], skipped: vec![] }
}

fn page(cursor: u64, keys: Vec<String>) -> Reply {
    Reply::Page { cursor, keys }
}

fn migrate(
    backend: &mut MemoryBackend,
    storage: &Storage,
    now: u64,
) -> Result<Outcome, StoreError> {
    let (task, action) = storage.tiers_v1_to_v2(now);
    backend.execute(storage, task, action, now)
}

/// Three profiles and two unknown markers under the legacy scheme.
fn populated() -> MemoryBackend {
    populated_with_pages(64)
}

fn populated_with_pages(width: usize) -> MemoryBackend {
    let mut backend = MemoryBackend::with_page_size(width);
    for n in [0, 1, 2] {
        let value = OptionalPlayerInfo::Present(profile(n)).encode();
        put(&mut backend, &legacy_key(n), value, 500, NOW - 100);
    }
    for n in [10, 11] {
        put(&mut backend, &legacy_key(n), OptionalPlayerInfo::Unknown.encode(), 500, NOW - 100);
    }
    backend
}

#[test]
fn migration_starts_with_a_scan_of_the_legacy_namespace() {
    let storage = Storage::new(300);
    let (task, action) = storage.tiers_v1_to_v2(NOW);
    assert_eq!(task, migrating(vec![]));
    assert_eq!(
        action,
        Action::Send(Command::ScanMatch { prefix: "tiers-v1-profile:".to_string(), cursor: 0 })
    );
}

#[test]
fn migration_rewrites_every_legacy_entry() {
    let storage = Storage { profile_ttl: 300, unknown_ttl: 60 };
    let mut backend = populated();
    let result = migrate(&mut backend, &storage, NOW);
    assert_eq!(
        result,
        Ok(Outcome::Migrated(MigrationReport { known: 3, unknown: 2, skipped: vec![] }))
    );
    assert_eq!(
        current_keys(&mut backend, NOW),
        vec![current_key(0), current_key(1), current_key(2)]
    );
    for n in [0, 1, 2] {
        let stored = get(&mut backend, &current_key(n), NOW + 299);
        assert_eq!(stored, RawValue::Bulk(OptionalPlayerInfo::Present(profile(n)).encode()));
        assert_eq!(get(&mut backend, &current_key(n), NOW + 300), RawValue::Nil);
    }
    assert_eq!(members(&mut backend), vec![id(10).to_text(), id(11).to_text()]);
    assert_eq!(score(&mut backend, 10), Some(NOW + 60));
    assert_eq!(score(&mut backend, 11), Some(NOW + 60));
}

#[test]
fn migrated_entries_are_found_by_the_store() {
    let storage = Storage { profile_ttl: 300, unknown_ttl: 60 };
    let mut backend = populated();
    migrate(&mut backend, &storage, NOW).unwrap();
    for n in [0, 1, 2] {
        let (task, action) = storage.get_player_info(id(n), NOW + 1);
        assert_eq!(
            backend.execute(&storage, task, action, NOW + 1),
            Ok(Outcome::Info(Some(profile(n))))
        );
    }
    let (task, action) = storage.get_all_players(NOW + 1);
    let Ok(Outcome::Players(mut found)) = backend.execute(&storage, task, action, NOW + 1) else {
        panic!("the enumeration must end well");
    };
    found.known.sort_by_key(|p| p.uuid.0);
    found.unknown.sort_by_key(|p| p.0);
    assert_eq!(found.known, vec![profile(0), profile(1), profile(2)]);
    assert_eq!(found.unknown, vec![id(10), id(11)]);
}

#[test]
fn migration_leaves_the_legacy_entries() {
    let storage = Storage::new(300);
    let mut backend = populated();
    migrate(&mut backend, &storage, NOW).unwrap();
    for n in [0, 1, 2] {
        assert_eq!(
            get(&mut backend, &legacy_key(n), NOW),
            RawValue::Bulk(OptionalPlayerInfo::Present(profile(n)).encode())
        );
    }
    for n in [10, 11] {
        assert_eq!(get(&mut backend, &legacy_key(n), NOW), RawValue::Bulk(unknown_bytes()));
    }
    // they still lapse when their own time has come
    assert_eq!(get(&mut backend, &legacy_key(0), NOW + 399), get(&mut backend, &legacy_key(0), NOW));
    assert_eq!(get(&mut backend, &legacy_key(0), NOW + 400), RawValue::Nil);
}

#[test]
fn a_second_migration_keeps_what_the_first_one_wrote() {
    let storage = Storage { profile_ttl: 300, unknown_ttl: 60 };
    let mut backend = populated();
    migrate(&mut backend, &storage, NOW).unwrap();
    let result = migrate(&mut backend, &storage, NOW + 50);
    assert_eq!(
        result,
        Ok(Outcome::Migrated(MigrationReport { known: 3, unknown: 2, skipped: vec![] }))
    );
    assert_eq!(
        current_keys(&mut backend, NOW + 50),
        vec![current_key(0), current_key(1), current_key(2)]
    );
    for n in [0, 1, 2] {
        assert_eq!(
            get(&mut backend, &current_key(n), NOW + 50),
            RawValue::Bulk(OptionalPlayerInfo::Present(profile(n)).encode())
        );
    }
    // the members are the same two, with a fresh expiration
    assert_eq!(members(&mut backend), vec![id(10).to_text(), id(11).to_text()]);
    assert_eq!(score(&mut backend, 10), Some(NOW + 110));
}

#[test]
fn a_second_migration_after_the_legacy_entries_lapsed_changes_nothing() {
    let storage = Storage { profile_ttl: 1000, unknown_ttl: 1000 };
    let mut backend = populated();
    migrate(&mut backend, &storage, NOW).unwrap();
    assert_eq!(migrate(&mut backend, &storage, NOW + 400), Ok(Outcome::NothingToMigrate));
    assert_eq!(
        get(&mut backend, &current_key(1), NOW + 400),
        RawValue::Bulk(OptionalPlayerInfo::Present(profile(1)).encode())
    );
    assert_eq!(score(&mut backend, 10), Some(NOW + 1000));
}

#[test]
fn migration_of_an_empty_namespace_does_nothing() {
    let storage = Storage::new(300);
    let mut backend = MemoryBackend::new();
    put(&mut backend, &current_key(0), unknown_bytes(), 300, NOW);
    assert_eq!(migrate(&mut backend, &storage, NOW), Ok(Outcome::NothingToMigrate));
    assert_eq!(current_keys(&mut backend, NOW), vec![current_key(0)]);
    assert_eq!(members(&mut backend), Vec::<String>::new());

    let (task, _) = storage.tiers_v1_to_v2(NOW);
    assert_eq!(
        storage.resume(task, page(0, vec![])),
        (Task::Finished, Action::Finish(Ok(Outcome::NothingToMigrate)))
    );
}

#[test]
fn migration_skips_malformed_legacy_keys() {
    let storage = Storage { profile_ttl: 300, unknown_ttl: 60 };
    let mut backend = populated();
    put(&mut backend, "tiers-v1-profile:steve", unknown_bytes(), 500, NOW);
    let result = migrate(&mut backend, &storage, NOW);
    assert_eq!(
        result,
        Ok(Outcome::Migrated(MigrationReport {
            known: 3,
            unknown: 2,
            skipped: vec!["tiers-v1-profile:steve".to_string()],
        }))
    );
    assert_eq!(members(&mut backend), vec![id(10).to_text(), id(11).to_text()]);
}

#[test]
fn migration_with_only_malformed_keys_writes_nothing() {
    let storage = Storage::new(300);
    let (task, _) = storage.tiers_v1_to_v2(NOW);
    let keys = vec!["tiers-v1-profile:a".to_string(), "tiers-v1-profile:b".to_string()];
    assert_eq!(
        storage.resume(task, page(0, keys.clone())),
        (
            Task::Finished,
            Action::Finish(Ok(Outcome::Migrated(MigrationReport {
                known: 0,
                unknown: 0,
                skipped: keys,
            })))
        )
    );
}

#[test]
fn migration_pairs_each_value_with_the_player_of_its_key() {
    let storage = Storage { profile_ttl: 300, unknown_ttl: 60 };
    let (task, _) = storage.tiers_v1_to_v2(NOW);
    let keys = vec![
        legacy_key(10),
        "tiers-v1-profile:junk".to_string(),
        legacy_key(0),
        legacy_key(11),
    ];
    let (task, action) = storage.resume(task, page(0, keys));
    assert_eq!(
        task,
        Task::MigrateFetch {
            now: NOW,
            next: 0,
            ids: vec![id(10), id(0), id(11)],
            seen: vec![legacy_key(10), legacy_key(0), legacy_key(11)],
            known: vec![],
            unknown: vec![],
            skipped: vec!["tiers-v1-profile:junk".to_string()],
        }
    );
    assert_eq!(
        action,
        Action::Send(Command::MultiGet { keys: vec![legacy_key(10), legacy_key(0), legacy_key(11)] })
    );
    let values = vec![
        RawValue::Bulk(unknown_bytes()),
        RawValue::Bulk(OptionalPlayerInfo::Present(profile(0)).encode()),
        RawValue::Nil,
    ];
    let (task, action) = storage.resume(task, Reply::Values(values));
    assert_eq!(
        task,
        Task::MigrateWrite {
            report: MigrationReport {
                known: 1,
                unknown: 2,
                skipped: vec!["tiers-v1-profile:junk".to_string()],
            }
        }
    );
    assert_eq!(
        action,
        Action::Send(Command::Pipeline(vec![
            Write::Put {
                key: current_key(0),
                value: OptionalPlayerInfo::Present(profile(0)).encode(),
                ttl: 300,
            },
            Write::SortedSetAdd {
                set: "tiers-v2-unknown".to_string(),
                member: id(10).to_text(),
                score: NOW + 60,
            },
            Write::SortedSetAdd {
                set: "tiers-v2-unknown".to_string(),
                member: id(11).to_text(),
                score: NOW + 60,
            },
        ]))
    );
    assert_eq!(
        storage.resume(task, Reply::Done),
        (
            Task::Finished,
            Action::Finish(Ok(Outcome::Migrated(MigrationReport {
                known: 1,
                unknown: 2,
                skipped: vec!["tiers-v1-profile:junk".to_string()],
            })))
        )
    );
}

#[test]
fn migration_writes_nothing_before_the_walk_is_over() {
    let storage = Storage { profile_ttl: 300, unknown_ttl: 60 };
    let (task, _) = storage.tiers_v1_to_v2(NOW);
    let (task, action) = storage.resume(task, page(3, vec![legacy_key(0), legacy_key(10)]));
    assert_eq!(
        action,
        Action::Send(Command::MultiGet { keys: vec![legacy_key(0), legacy_key(10)] })
    );
    let values = vec![
        RawValue::Bulk(OptionalPlayerInfo::Present(profile(0)).encode()),
        RawValue::Bulk(unknown_bytes()),
    ];
    let (task, action) = storage.resume(task, Reply::Values(values));
    assert_eq!(
        task,
        Task::MigrateScan {
            now: NOW,
            seen: vec![legacy_key(0), legacy_key(10)],
            known: vec![profile(0)],
            unknown: vec![id(10)],
            skipped: vec![],
        }
    );
    assert_eq!(
        action,
        Action::Send(Command::ScanMatch { prefix: "tiers-v1-profile:".to_string(), cursor: 3 })
    );
    // the last page brings one more profile; then everything goes out in one batch
    let (task, _) = storage.resume(task, page(0, vec![legacy_key(1), legacy_key(0)]));
    let values = vec![RawValue::Bulk(OptionalPlayerInfo::Present(profile(1)).encode())];
    let (task, action) = storage.resume(task, Reply::Values(values));
    assert_eq!(
        task,
        Task::MigrateWrite { report: MigrationReport { known: 2, unknown: 1, skipped: vec![] } }
    );
    let Action::Send(Command::Pipeline(writes)) = action else {
        panic!("the batch must be sent");
    };
    assert_eq!(writes.len(), 3);
    assert_eq!(writes, storage.migration_batch(vec![profile(0), profile(1)], vec![id(10)], NOW));
}

#[test]
fn migration_is_the_same_however_the_walk_is_cut() {
    let storage = Storage { profile_ttl: 300, unknown_ttl: 60 };
    for width in [0, 1, 2, 3, 4, 5, 6] {
        let mut backend = populated_with_pages(width);
        put(&mut backend, "tiers-v1-profile:steve", unknown_bytes(), 500, NOW);
        // written again: the walk passes this key twice
        let value = OptionalPlayerInfo::Present(profile(1)).encode();
        put(&mut backend, &legacy_key(1), value, 500, NOW - 50);
        let result = migrate(&mut backend, &storage, NOW);
        assert_eq!(
            result,
            Ok(Outcome::Migrated(MigrationReport {
                known: 3,
                unknown: 2,
                skipped: vec!["tiers-v1-profile:steve".to_string()],
            })),
            "page size {}",
            width
        );
        assert_eq!(
            current_keys(&mut backend, NOW),
            vec![current_key(0), current_key(1), current_key(2)]
        );
        assert_eq!(members(&mut backend), vec![id(10).to_text(), id(11).to_text()]);
    }
}

#[test]
fn a_profile_goes_under_the_key_of_its_own_identifier() {
    let storage = Storage::new(300);
    // the legacy key names player 5, the profile under it is player 6's
    let batch = storage.migration_batch(vec![profile(6)], vec![], NOW);
    assert_eq!(
        batch,
        vec![Write::Put {
            key: current_key(6),
            value: OptionalPlayerInfo::Present(profile(6)).encode(),
            ttl: 300,
        }]
    );
}

#[test]
fn a_legacy_value_that_cannot_be_read_fails_the_migration_before_any_write() {
    let storage = Storage::new(300);
    let mut backend = populated();
    put(&mut backend, &legacy_key(20), b"{\"type\":\"present\"}".to_vec(), 500, NOW);
    let result = migrate(&mut backend, &storage, NOW);
    assert_eq!(
        result,
        Err(StoreError::Decode(DecodeError {
            kind: DecodeErrorKind::Malformed,
            payload: RawValue::Bulk(b"{\"type\":\"present\"}".to_vec()),
        }))
    );
    assert_eq!(current_keys(&mut backend, NOW), Vec::<String>::new());
    assert_eq!(members(&mut backend), Vec::<String>::new());
}

#[test]
fn a_failed_batch_surfaces_the_failure() {
    let storage = Storage::new(300);
    let task = Task::MigrateWrite {
        report: MigrationReport { known: 1, unknown: 0, skipped: vec![] },
    };
    assert_eq!(
        storage.resume(task, Reply::Failed("broken pipe".to_string())),
        (Task::Finished, Action::Finish(Err(StoreError::Backend("broken pipe".to_string()))))
    );
}

#[test]
fn legacy_values_sort_by_tag() {
    let ids = vec![id(0), id(1), id(2), id(3)];
    let values = vec![
        RawValue::Nil,
        RawValue::Bulk(OptionalPlayerInfo::Present(profile(1)).encode()),
        RawValue::Bulk(unknown_bytes()),
        RawValue::Bulk(OptionalPlayerInfo::Present(profile(3)).encode()),
    ];
    assert_eq!(
        sort_legacy(&ids, values),
        Ok((vec![profile(1), profile(3)], vec![id(0), id(2)]))
    );
    let values = vec![RawValue::Nil, RawValue::Other("x".to_string())];
    assert_eq!(
        sort_legacy(&vec![id(0), id(1)], values),
        Err(DecodeError {
            kind: DecodeErrorKind::UnexpectedType,
            payload: RawValue::Other("x".to_string()),
        })
    );
}
