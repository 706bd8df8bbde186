use api_rs::backend::{Command, Reply, Write};
use api_rs::codec::RawValue;
use api_rs::memory::MemoryBackend;

fn put(key: &str, value: &[u8], ttl: u64) -> Command {
    Command::Write(Write::Put { key: key.to_string(), value: value.to_vec(), ttl })
}

fn add(set: &str, member: &str, score: u64) -> Command {
    Command::Write(Write::SortedSetAdd { set: set.to_string(), member: member.to_string(), score })
}

fn key_exists(backend: &mut MemoryBackend, key: &str, now: u64) -> Reply {
    backend.respond(Command::Exists { key: key.to_string() }, now)
}

fn get(backend: &mut MemoryBackend, key: &str, now: u64) -> Reply {
    backend.respond(Command::Get { key: key.to_string() }, now)
}

fn sorted(reply: Reply) -> Vec<String> {
    let mut list = match reply {
        Reply::Members(list) => list,
        other => panic!("unexpected reply {:?}", other),
    };
    list.sort();
    list
}

/// Walks the keys with the prefix to the end; hands back the pages.
fn walk(backend: &mut MemoryBackend, prefix: &str, now: u64) -> Vec<Vec<String>> {
    let mut pages = Vec::new();
    let mut cursor = 0;
    loop {
        let step = Command::ScanMatch { prefix: prefix.to_string(), cursor };
        match backend.respond(step, now) {
            Reply::Page { cursor: next, keys } => {
                pages.push(keys);
                if next == 0 {
                    return pages;
                }
                assert!(next > cursor, "a walk must move on");
                cursor = next;
            },
            other => panic!("unexpected reply {:?}", other),
        }
    }
}

fn walked(backend: &mut MemoryBackend, prefix: &str, now: u64) -> Vec<String> {
    let mut keys: Vec<String> = walk(backend, prefix, now).into_iter().flatten().collect();
    keys.sort();
    keys.dedup();
    keys
}

#[test]
fn an_empty_backend_holds_nothing() {
    let mut backend = MemoryBackend::new();
    assert_eq!(key_exists(&mut backend, "k", 0), Reply::Flag(false));
    assert_eq!(get(&mut backend, "k", 0), Reply::Value(RawValue::Nil));
    assert_eq!(
        backend.respond(Command::ScanMatch { prefix: String::new(), cursor: 0 }, 0),
        Reply::Page { cursor: 0, keys: vec![] }
    );
    assert_eq!(
        backend.respond(Command::SortedSetScoreOf { set: "s".to_string(), member: "m".to_string() }, 0),
        Reply::Score(None)
    );
    assert_eq!(
        backend.respond(Command::SortedSetRangeByScore { set: "s".to_string(), above: 0 }, 0),
        Reply::Members(vec![])
    );
}

#[test]
fn a_value_lives_until_its_time_has_come() {
    let mut backend = MemoryBackend::new();
    assert_eq!(backend.respond(put("k", b"v", 10), 100), Reply::Done);
    assert_eq!(key_exists(&mut backend, "k", 100), Reply::Flag(true));
    assert_eq!(get(&mut backend, "k", 109), Reply::Value(RawValue::Bulk(b"v".to_vec())));
    assert_eq!(key_exists(&mut backend, "k", 110), Reply::Flag(false));
    assert_eq!(get(&mut backend, "k", 110), Reply::Value(RawValue::Nil));
    assert_eq!(key_exists(&mut backend, "other", 100), Reply::Flag(false));
}

#[test]
fn a_later_write_replaces_value_and_expiry() {
    let mut backend = MemoryBackend::new();
    backend.respond(put("k", b"old", 100), 0);
    backend.respond(put("k", b"new", 10), 5);
    assert_eq!(get(&mut backend, "k", 14), Reply::Value(RawValue::Bulk(b"new".to_vec())));
    assert_eq!(get(&mut backend, "k", 15), Reply::Value(RawValue::Nil));
}

#[test]
fn multi_get_answers_in_the_order_of_the_keys() {
    let mut backend = MemoryBackend::new();
    backend.respond(put("a", b"1", 10), 0);
    backend.respond(put("b", b"2", 10), 0);
    let keys = vec!["b".to_string(), "missing".to_string(), "a".to_string(), "b".to_string()];
    assert_eq!(
        backend.respond(Command::MultiGet { keys }, 1),
        Reply::Values(vec![
            RawValue::Bulk(b"2".to_vec()),
            RawValue::Nil,
            RawValue::Bulk(b"1".to_vec()),
            RawValue::Bulk(b"2".to_vec()),
        ])
    );
}

#[test]
fn a_walk_finds_the_live_keys_with_the_prefix() {
    let mut backend = MemoryBackend::new();
    backend.respond(put("ns:a", b"1", 10), 0);
    backend.respond(put("ns:b", b"2", 5), 0);
    backend.respond(put("other:c", b"3", 10), 0);
    backend.respond(put("ns", b"4", 10), 0);
    assert_eq!(walked(&mut backend, "ns:", 0), vec!["ns:a".to_string(), "ns:b".to_string()]);
    assert_eq!(walked(&mut backend, "ns:", 5), vec!["ns:a".to_string()]);
    assert_eq!(walked(&mut backend, "ns:", 10), Vec::<String>::new());
    assert_eq!(
        walked(&mut backend, "", 0),
        vec!["ns".to_string(), "ns:a".to_string(), "ns:b".to_string(), "other:c".to_string()]
    );
}

#[test]
fn a_walk_goes_page_by_page() {
    for page in [0, 1, 2, 3, 7, 64] {
        let mut backend = MemoryBackend::with_page_size(page);
        let mut expected = Vec::new();
        for n in 0..7 {
            let key = format!("ns:{}", n);
            backend.respond(put(&key, b"v", 10), 0);
            expected.push(key);
        }
        backend.respond(put("other", b"v", 10), 0);
        let pages = walk(&mut backend, "ns:", 0);
        let width = page.max(1);
        assert_eq!(pages.len(), 8usize.div_ceil(width), "page size {}", page);
        assert!(pages.iter().all(|keys| keys.len() <= width));
        assert_eq!(walked(&mut backend, "ns:", 0), expected, "page size {}", page);
    }
}

#[test]
fn a_walk_may_report_a_key_twice() {
    let mut backend = MemoryBackend::with_page_size(1);
    backend.respond(put("k", b"old", 10), 0);
    backend.respond(put("k", b"new", 10), 1);
    let pages = walk(&mut backend, "", 1);
    assert_eq!(pages, vec![vec!["k".to_string()], vec!["k".to_string()]]);
}

#[test]
fn a_cursor_beyond_the_end_ends_the_walk() {
    let mut backend = MemoryBackend::new();
    backend.respond(put("k", b"v", 10), 0);
    assert_eq!(
        backend.respond(Command::ScanMatch { prefix: String::new(), cursor: 2 }, 0),
        Reply::Page { cursor: 0, keys: vec![] }
    );
    assert_eq!(
        backend.respond(Command::ScanMatch { prefix: String::new(), cursor: 1 }, 0),
        Reply::Page { cursor: 0, keys: vec![] }
    );
    assert_eq!(
        backend.respond(Command::ScanMatch { prefix: String::new(), cursor: u64::MAX }, 0),
        Reply::Page { cursor: 0, keys: vec![] }
    );
}

#[test]
fn a_sorted_set_holds_one_score_for_each_member() {
    let mut backend = MemoryBackend::new();
    backend.respond(add("s", "m", 5), 0);
    backend.respond(add("s", "n", 7), 0);
    backend.respond(add("t", "m", 9), 0);
    backend.respond(add("s", "m", 6), 0);
    let score = |backend: &mut MemoryBackend, set: &str, member: &str| {
        backend.respond(
            Command::SortedSetScoreOf { set: set.to_string(), member: member.to_string() },
            0,
        )
    };
    assert_eq!(score(&mut backend, "s", "m"), Reply::Score(Some(6)));
    assert_eq!(score(&mut backend, "s", "n"), Reply::Score(Some(7)));
    assert_eq!(score(&mut backend, "t", "m"), Reply::Score(Some(9)));
    assert_eq!(score(&mut backend, "t", "n"), Reply::Score(None));
    let range = backend.respond(Command::SortedSetRangeByScore { set: "s".to_string(), above: 0 }, 0);
    assert_eq!(sorted(range), vec!["m".to_string(), "n".to_string()]);
    let range = backend.respond(Command::SortedSetRangeByScore { set: "s".to_string(), above: 6 }, 0);
    assert_eq!(sorted(range), vec!["n".to_string()]);
    let range = backend.respond(Command::SortedSetRangeByScore { set: "s".to_string(), above: 7 }, 0);
    assert_eq!(sorted(range), Vec::<String>::new());
}

#[test]
fn removal_by_score_takes_the_members_up_to_the_bound() {
    let mut backend = MemoryBackend::new();
    backend.respond(add("s", "low", 5), 0);
    backend.respond(add("s", "edge", 10), 0);
    backend.respond(add("s", "high", 11), 0);
    backend.respond(add("s", "raised", 1), 0);
    backend.respond(add("s", "raised", 20), 0);
    backend.respond(add("s", "lowered", 20), 0);
    backend.respond(add("s", "lowered", 1), 0);
    backend.respond(add("t", "low", 5), 0);
    let remove = Command::SortedSetRemoveByScore { set: "s".to_string(), up_to: 10 };
    assert_eq!(backend.respond(remove, 0), Reply::Done);
    let range = backend.respond(Command::SortedSetRangeByScore { set: "s".to_string(), above: 0 }, 0);
    assert_eq!(sorted(range), vec!["high".to_string(), "raised".to_string()]);
    let range = backend.respond(Command::SortedSetRangeByScore { set: "t".to_string(), above: 0 }, 0);
    assert_eq!(sorted(range), vec!["low".to_string()]);
    assert_eq!(
        backend.respond(
            Command::SortedSetScoreOf { set: "s".to_string(), member: "lowered".to_string() },
            0
        ),
        Reply::Score(None)
    );
}

#[test]
fn a_pipeline_applies_its_writes_in_order() {
    let mut backend = MemoryBackend::new();
    let batch = Command::Pipeline(vec![
        Write::Put { key: "k".to_string(), value: b"first".to_vec(), ttl: 10 },
        Write::SortedSetAdd { set: "s".to_string(), member: "m".to_string(), score: 1 },
        Write::Put { key: "k".to_string(), value: b"second".to_vec(), ttl: 10 },
    ]);
    assert_eq!(backend.respond(batch, 0), Reply::Done);
    assert_eq!(get(&mut backend, "k", 0), Reply::Value(RawValue::Bulk(b"second".to_vec())));
    assert_eq!(
        backend.respond(Command::SortedSetScoreOf { set: "s".to_string(), member: "m".to_string() }, 0),
        Reply::Score(Some(1))
    );
    assert_eq!(backend.respond(Command::Pipeline(vec![]), 0), Reply::Done);
}

#[test]
fn a_step_passes_as_many_entries_as_the_backend_was_made_for() {
    let cursors = |width: usize| {
        let mut backend = MemoryBackend::with_page_size(width);
        for n in 0..7 {
            backend.respond(put(&format!("k{}", n), b"v", 10), 0);
        }
        let mut seen = Vec::new();
        let mut cursor = 0;
        loop {
            let step = Command::ScanMatch { prefix: String::new(), cursor };
            match backend.respond(step, 0) {
                Reply::Page { cursor: next, keys } => {
                    seen.push((next, keys.len()));
                    cursor = next;
                },
                other => panic!("unexpected reply {:?}", other),
            }
            if cursor == 0 {
                return seen;
            }
        }
    };
    assert_eq!(cursors(3), vec![(3, 3), (6, 3), (0, 1)]);
    assert_eq!(cursors(0), vec![(1, 1), (2, 1), (3, 1), (4, 1), (5, 1), (6, 1), (0, 1)]);
    assert_eq!(cursors(1), cursors(0));
    assert_eq!(cursors(7), vec![(0, 7)]);
    assert_eq!(cursors(6), vec![(6, 6), (0, 1)]);
    assert_eq!(cursors(usize::MAX), vec![(0, 7)]);
    // the backend that `new` makes passes 64 entries
    let mut backend = MemoryBackend::new();
    for n in 0..65 {
        backend.respond(put(&format!("k{}", n), b"v", 10), 0);
    }
    let step = Command::ScanMatch { prefix: String::new(), cursor: 0 };
    match backend.respond(step, 0) {
        Reply::Page { cursor, keys } => assert_eq!((cursor, keys.len()), (64, 64)),
        other => panic!("unexpected reply {:?}", other),
    }
}

#[test]
fn a_removed_key_holds_nothing_until_it_is_written_again() {
    let mut backend = MemoryBackend::with_page_size(2);
    backend.respond(put("a", b"one", 10), 0);
    backend.respond(put("b", b"two", 10), 0);
    backend.respond(put("a", b"three", 10), 0);
    let gone = Command::Write(Write::Delete { key: "a".to_string() });
    assert_eq!(backend.respond(gone.clone(), 1), Reply::Done);
    assert_eq!(key_exists(&mut backend, "a", 1), Reply::Flag(false));
    assert_eq!(get(&mut backend, "a", 1), Reply::Value(RawValue::Nil));
    assert_eq!(get(&mut backend, "b", 1), Reply::Value(RawValue::Bulk(b"two".to_vec())));
    let keys: Vec<String> = walk(&mut backend, "", 1).into_iter().flatten().collect();
    assert_eq!(keys, vec!["b".to_string()]);
    assert_eq!(backend.respond(gone, 1), Reply::Done);
    backend.respond(put("a", b"four", 10), 2);
    assert_eq!(get(&mut backend, "a", 2), Reply::Value(RawValue::Bulk(b"four".to_vec())));
}

#[test]
fn a_removed_member_has_no_score() {
    let mut backend = MemoryBackend::new();
    backend.respond(add("s", "m", 5), 0);
    backend.respond(add("s", "n", 6), 0);
    backend.respond(add("t", "m", 7), 0);
    let remove =
        Command::Write(Write::SortedSetRemove { set: "s".to_string(), member: "m".to_string() });
    assert_eq!(backend.respond(remove.clone(), 0), Reply::Done);
    let score_of = |backend: &mut MemoryBackend, set: &str, member: &str| {
        backend.respond(
            Command::SortedSetScoreOf { set: set.to_string(), member: member.to_string() },
            0,
        )
    };
    assert_eq!(score_of(&mut backend, "s", "m"), Reply::Score(None));
    assert_eq!(score_of(&mut backend, "s", "n"), Reply::Score(Some(6)));
    assert_eq!(score_of(&mut backend, "t", "m"), Reply::Score(Some(7)));
    assert_eq!(
        sorted(backend.respond(Command::SortedSetRangeByScore { set: "s".to_string(), above: 0 }, 0)),
        vec!["n".to_string()]
    );
    assert_eq!(backend.respond(remove, 0), Reply::Done);
    backend.respond(add("s", "m", 9), 0);
    assert_eq!(score_of(&mut backend, "s", "m"), Reply::Score(Some(9)));
}
