//! The schema migration: rewrites the entries of the legacy generation under
//! the current scheme.
//!
//! The legacy generation keeps profiles and "unknown" markers in one
//! namespace. The migration reads all of it, writes each profile under its
//! current key and adds each unknown player to the unknown-set, in one batch.
//! It deletes nothing: the legacy entries stay until they expire.

use vstd::prelude::*;
use vstd::string::*;
use crate::backend::{texts, Command, Reply, Write};
use crate::cache::{Action, MigrationReport, Outcome, Storage, StoreError, Task};
use crate::codec::{
    enc_record, encode_profile, read_value, DecodeError, Generation, OptionalPlayerInfo, RawValue,
};
use crate::ident::{hyphenated, PlayerId};
use crate::keys::{expire_time, key_text, lapse, profile_key, UNKNOWN_SET_KEY};
use crate::scan::{copy_texts, fresh_keys, ids_of, ill_keyed, split_keys};
use crate::tiers::{infos_view, PlayerInfo, PlayerInfoView};

verus! {

/// The legacy entries by tag: the profiles, and the players whose entry says
/// "unknown". `ids` holds the player of each value. Where a value cannot be
/// read, the result is the position of the first such value.
pub open spec fn legacy_split(ids: Seq<PlayerId>, values: Seq<RawValue>) -> Result<
    (Seq<PlayerInfoView>, Seq<PlayerId>),
    int,
>
    recommends
        ids.len() == values.len(),
    decreases values.len(),
{
    if values.len() == 0 {
        Ok((Seq::empty(), Seq::empty()))
    } else {
        match legacy_split(ids.drop_last(), values.drop_last()) {
            Err(i) => Err(i),
            Ok((known, unknown)) => match read_value(Generation::Legacy, values.last()) {
                Err(_) => Err(values.len() - 1),
                Ok(Some(Some(p))) => Ok((known.push(p), unknown)),
                Ok(_) => Ok((known, unknown.push(ids.last()))),
            },
        }
    }
}

impl Storage {
    /// Whether a write stores the profile under its player's current key, as a
    /// present record with the profile lifetime.
    pub open spec fn writes_profile(self, w: Write, p: PlayerInfoView) -> bool {
        &&& w matches Write::Put { key, value, ttl }
        &&& key@ == key_text(Generation::Current, p.uuid)
        &&& value@ == enc_record(Some(p))
        &&& ttl == self.profile_ttl
    }

    /// Whether a write marks the player as unknown until the marker lifetime
    /// after `now`.
    pub open spec fn writes_unknown(self, w: Write, id: PlayerId, now: u64) -> bool {
        &&& w matches Write::SortedSetAdd { set, member, score }
        &&& set@ == UNKNOWN_SET_KEY@
        &&& member@ == hyphenated(id.0)
        &&& score == lapse(now, self.unknown_ttl)
    }

    /// Whether `writes` is the batch of a migration: one write for each
    /// profile, in order, then one for each unknown player, in order.
    pub open spec fn is_migration_batch(
        self,
        writes: Seq<Write>,
        known: Seq<PlayerInfoView>,
        unknown: Seq<PlayerId>,
        now: u64,
    ) -> bool {
        &&& writes.len() == known.len() + unknown.len()
        &&& forall|i: int| 0 <= i < known.len() ==> self.writes_profile(#[trigger] writes[i], known[i])
        &&& forall|j: int|
            0 <= j < unknown.len() ==> self.writes_unknown(
                #[trigger] writes[known.len() + j],
                unknown[j],
                now,
            )
    }

    /// How a migration starts: with nothing met yet, by asking for the first
    /// page of a walk through the keys of the legacy generation.
    pub open spec fn starts_migration(self, now: u64, task: Task, action: Action) -> bool {
        &&& task matches Task::MigrateScan { now: at, seen, known, unknown, skipped }
        &&& at == now
        &&& seen@.len() == 0
        &&& known@.len() == 0
        &&& unknown@.len() == 0
        &&& skipped@.len() == 0
        &&& action.scans(Generation::Legacy, 0)
    }

    /// How a migration goes on once a page is dealt with. While the walk is
    /// not over, the next page is asked for. After a walk that met no key at
    /// all there is nothing to migrate, and after one that met only keys that
    /// lead to no player there is nothing to write. After any other walk the
    /// batch of writes is sent: all that was found, in one batch.
    pub open spec fn migrates_on(
        self,
        now: u64,
        cursor: u64,
        seen: Seq<Seq<char>>,
        known: Seq<PlayerInfoView>,
        unknown: Seq<PlayerId>,
        skipped: Seq<Seq<char>>,
        next: Task,
        action: Action,
    ) -> bool {
        if cursor != 0 {
            &&& next matches Task::MigrateScan { now: at, seen: s, known: k, unknown: u, skipped: sk }
            &&& at == now
            &&& texts(s@) == seen
            &&& infos_view(k@) == known
            &&& u@ == unknown
            &&& texts(sk@) == skipped
            &&& action.scans(Generation::Legacy, cursor)
        } else if seen.len() == 0 {
            &&& next == Task::Finished
            &&& if skipped.len() == 0 {
                action == Action::Finish(Ok(Outcome::NothingToMigrate))
            } else {
                &&& action matches Action::Finish(Ok(Outcome::Migrated(report)))
                &&& report.known == 0
                &&& report.unknown == 0
                &&& texts(report.skipped@) == skipped
            }
        } else {
            &&& next matches Task::MigrateWrite { report }
            &&& report.known == known.len()
            &&& report.unknown == unknown.len()
            &&& texts(report.skipped@) == skipped
            &&& action matches Action::Send(Command::Pipeline(ws))
            &&& self.is_migration_batch(ws@, known, unknown, now)
        }
    }

    /// What a page of legacy keys does to a migration. The keys that lead to
    /// no player are set aside. The values of the keys that lead to a player
    /// and were not met before are fetched; where the page holds none, the
    /// migration goes on.
    pub open spec fn resumes_migrate_scan(
        self,
        now: u64,
        seen: Vec<String>,
        known: Vec<PlayerInfo>,
        unknown: Vec<PlayerId>,
        skipped: Vec<String>,
        reply: Reply,
        next: Task,
        action: Action,
    ) -> bool {
        match reply {
            Reply::Page { cursor, keys } => {
                let fresh = fresh_keys(Generation::Legacy, texts(seen@), texts(keys@));
                let passed = texts(skipped@) + ill_keyed(Generation::Legacy, texts(keys@));
                if fresh.len() > 0 {
                    &&& next matches Task::MigrateFetch {
                        now: at,
                        next: from,
                        ids,
                        seen: s,
                        known: k,
                        unknown: u,
                        skipped: sk,
                    }
                    &&& at == now
                    &&& from == cursor
                    &&& ids@ == ids_of(Generation::Legacy, fresh)
                    &&& texts(s@) == texts(seen@) + fresh
                    &&& infos_view(k@) == infos_view(known@)
                    &&& u@ == unknown@
                    &&& texts(sk@) == passed
                    &&& action matches Action::Send(Command::MultiGet { keys: fetched })
                    &&& texts(fetched@) == fresh
                } else {
                    self.migrates_on(
                        now,
                        cursor,
                        texts(seen@),
                        infos_view(known@),
                        unknown@,
                        passed,
                        next,
                        action,
                    )
                }
            },
            _ => next == Task::Finished && action.rejects(),
        }
    }

    /// What the fetched legacy values do to a migration: they are sorted by
    /// tag and added to what was found, and the migration goes on. The first
    /// value that cannot be read fails the migration before anything is
    /// written.
    pub open spec fn resumes_migrate_fetch(
        self,
        now: u64,
        cursor: u64,
        ids: Vec<PlayerId>,
        seen: Vec<String>,
        known: Vec<PlayerInfo>,
        unknown: Vec<PlayerId>,
        skipped: Vec<String>,
        reply: Reply,
        next: Task,
        action: Action,
    ) -> bool {
        match reply {
            Reply::Values(vs) => if vs@.len() != ids@.len() {
                next == Task::Finished && action.rejects()
            } else {
                match legacy_split(ids@, vs@) {
                    Ok((profiles, players)) => self.migrates_on(
                        now,
                        cursor,
                        texts(seen@),
                        infos_view(known@) + profiles,
                        unknown@ + players,
                        texts(skipped@),
                        next,
                        action,
                    ),
                    Err(i) => {
                        &&& next == Task::Finished
                        &&& 0 <= i < vs@.len()
                        &&& read_value(Generation::Legacy, vs@[i]) matches Err(kind)
                        &&& action.fails_on(kind, vs@[i])
                    },
                }
            },
            _ => next == Task::Finished && action.rejects(),
        }
    }

    /// What a reply does to a task of the migration.
    pub open spec fn resumes_migration(self, task: Task, reply: Reply, next: Task, action: Action) -> bool {
        match task {
            Task::MigrateScan { now, seen, known, unknown, skipped } => self.resumes_migrate_scan(
                now,
                seen,
                known,
                unknown,
                skipped,
                reply,
                next,
                action,
            ),
            Task::MigrateFetch {
                now,
                next: cursor,
                ids,
                seen,
                known,
                unknown,
                skipped,
            } => self.resumes_migrate_fetch(
                now,
                cursor,
                ids,
                seen,
                known,
                unknown,
                skipped,
                reply,
                next,
                action,
            ),
            Task::MigrateWrite { report } => next == Task::Finished && match reply {
                Reply::Done => action == Action::Finish(Ok(Outcome::Migrated(report))),
                _ => action.rejects(),
            },
            _ => false,
        }
    }

    /// Starts the migration from the legacy generation to the current one.
    /// The legacy keys are found by a walk through the key space, page by
    /// page, and the values of each page are fetched before the next page is
    /// asked for; all writes go out in one batch at the end.
    pub fn tiers_v1_to_v2(&self, now: u64) -> (r: (Task, Action))
        ensures
            self.starts_migration(now, r.0, r.1),
    {
        (
            Task::MigrateScan {
                now,
                seen: Vec::new(),
                known: Vec::new(),
                unknown: Vec::new(),
                skipped: Vec::new(),
            },
            Self::scan(Generation::Legacy, 0),
        )
    }

    fn migrate_on(
        &self,
        now: u64,
        cursor: u64,
        seen: Vec<String>,
        known: Vec<PlayerInfo>,
        unknown: Vec<PlayerId>,
        skipped: Vec<String>,
    ) -> (r: (Task, Action))
        ensures
            self.migrates_on(
                now,
                cursor,
                texts(seen@),
                infos_view(known@),
                unknown@,
                texts(skipped@),
                r.0,
                r.1,
            ),
    {
        if cursor != 0 {
            (
                Task::MigrateScan { now, seen, known, unknown, skipped },
                Self::scan(Generation::Legacy, cursor),
            )
        } else if seen.len() == 0 {
            if skipped.len() == 0 {
                (Task::Finished, Action::Finish(Ok(Outcome::NothingToMigrate)))
            } else {
                (
                    Task::Finished,
                    Action::Finish(
                        Ok(Outcome::Migrated(MigrationReport { known: 0, unknown: 0, skipped })),
                    ),
                )
            }
        } else {
            let report = MigrationReport { known: known.len(), unknown: unknown.len(), skipped };
            let writes = self.migration_batch(known, unknown, now);
            (Task::MigrateWrite { report }, Action::Send(Command::Pipeline(writes)))
        }
    }

    pub(crate) fn resume_migrate_scan(
        &self,
        now: u64,
        seen: Vec<String>,
        known: Vec<PlayerInfo>,
        unknown: Vec<PlayerId>,
        skipped: Vec<String>,
        reply: Reply,
    ) -> (r: (Task, Action))
        requires
            !(reply is Failed),
        ensures
            self.resumes_migrate_scan(now, seen, known, unknown, skipped, reply, r.0, r.1),
    {
        match reply {
            Reply::Page { cursor, keys } => {
                let mut split = split_keys(Generation::Legacy, &seen, keys);
                let mut passed = skipped;
                passed.append(&mut split.skipped);
                proof {
                    assert(texts(passed@) =~= texts(skipped@) + ill_keyed(
                        Generation::Legacy,
                        texts(keys@),
                    ));
                }
                if split.fresh.len() > 0 {
                    let mut met = seen;
                    let mut fresh = copy_texts(&split.fresh);
                    met.append(&mut fresh);
                    proof {
                        assert(texts(met@) =~= texts(seen@) + texts(split.fresh@));
                    }
                    (
                        Task::MigrateFetch {
                            now,
                            next: cursor,
                            ids: split.ids,
                            seen: met,
                            known,
                            unknown,
                            skipped: passed,
                        },
                        Action::Send(Command::MultiGet { keys: split.fresh }),
                    )
                } else {
                    self.migrate_on(now, cursor, seen, known, unknown, passed)
                }
            },
            _ => (Task::Finished, Action::Finish(Err(StoreError::UnexpectedReply))),
        }
    }

    pub(crate) fn resume_migrate_fetch(
        &self,
        now: u64,
        cursor: u64,
        ids: Vec<PlayerId>,
        seen: Vec<String>,
        known: Vec<PlayerInfo>,
        unknown: Vec<PlayerId>,
        skipped: Vec<String>,
        reply: Reply,
    ) -> (r: (Task, Action))
        requires
            !(reply is Failed),
        ensures
            self.resumes_migrate_fetch(
                now,
                cursor,
                ids,
                seen,
                known,
                unknown,
                skipped,
                reply,
                r.0,
                r.1,
            ),
    {
        match reply {
            Reply::Values(vs) => {
                if vs.len() != ids.len() {
                    return (Task::Finished, Action::Finish(Err(StoreError::UnexpectedReply)));
                }
                match sort_legacy(&ids, vs) {
                    Ok((mut profiles, mut players)) => {
                        let mut all_known = known;
                        let mut all_unknown = unknown;
                        all_known.append(&mut profiles);
                        all_unknown.append(&mut players);
                        proof {
                            let sorted = legacy_split(ids@, vs@)->Ok_0;
                            assert(infos_view(all_known@) =~= infos_view(known@) + sorted.0);
                        }
                        self.migrate_on(now, cursor, seen, all_known, all_unknown, skipped)
                    },
                    Err(e) => (Task::Finished, Action::Finish(Err(StoreError::Decode(e)))),
                }
            },
            _ => (Task::Finished, Action::Finish(Err(StoreError::UnexpectedReply))),
        }
    }

    /// The batch that writes the given legacy entries under the current
    /// scheme: the profiles first, then the unknown players.
    pub fn migration_batch(&self, known: Vec<PlayerInfo>, unknown: Vec<PlayerId>, now: u64) -> (r:
        Vec<Write>)
        ensures
            self.is_migration_batch(r@, infos_view(known@), unknown@, now),
    {
        let mut writes: Vec<Write> = Vec::new();
        for info in it: known
            invariant
                it.seq() == known@,
                writes@.len() == it.index(),
                forall|i: int|
                    0 <= i < it.index() ==> self.writes_profile(
                        #[trigger] writes@[i],
                        infos_view(known@)[i],
                    ),
        {
            let key = profile_key(Generation::Current, info.uuid);
            let value = encode_profile(&info);
            writes.push(Write::Put { key, value, ttl: self.profile_ttl });
        }
        let mut j: usize = 0;
        while j < unknown.len()
            invariant
                j <= unknown.len(),
                writes@.len() == known@.len() + j,
                forall|i: int|
                    0 <= i < known@.len() ==> self.writes_profile(
                        #[trigger] writes@[i],
                        infos_view(known@)[i],
                    ),
                forall|k: int|
                    0 <= k < j ==> self.writes_unknown(
                        #[trigger] writes@[known@.len() + k],
                        unknown@[k],
                        now,
                    ),
            decreases unknown.len() - j,
        {
            let id = unknown[j];
            writes.push(
                Write::SortedSetAdd {
                    set: String::from_str(UNKNOWN_SET_KEY),
                    member: id.to_text(),
                    score: expire_time(now, self.unknown_ttl),
                },
            );
            j += 1;
        }
        writes
    }
}

/// Sorts the legacy values by tag. `ids` holds the player of each value.
pub fn sort_legacy(ids: &Vec<PlayerId>, values: Vec<RawValue>) -> (r: Result<
    (Vec<PlayerInfo>, Vec<PlayerId>),
    DecodeError,
>)
    requires
        ids@.len() == values@.len(),
    ensures
        match r {
            Ok((known, unknown)) => legacy_split(ids@, values@) == Ok::<_, int>(
                (infos_view(known@), unknown@),
            ),
            Err(e) => legacy_split(ids@, values@) matches Err(i) && 0 <= i < values@.len()
                && e.payload == values@[i] && read_value(Generation::Legacy, values@[i]) == Err::<
                Option<Option<PlayerInfoView>>,
                _,
            >(e.kind),
        },
{
    let mut known: Vec<PlayerInfo> = Vec::new();
    let mut unknown: Vec<PlayerId> = Vec::new();
    let mut i: usize = 0;
    let count = ids.len();
    proof {
        assert(values@.take(0) =~= Seq::empty());
        assert(infos_view(known@) =~= Seq::empty());
        assert(unknown@ =~= Seq::empty());
    }
    for value in it: values
        invariant
            it.seq() == values@,
            ids@.len() == values@.len(),
            ids@.len() == count,
            i == it.index(),
            legacy_split(ids@.take(i as int), values@.take(i as int)) == Ok::<_, int>(
                (infos_view(known@), unknown@),
            ),
    {
        proof {
            assert(i < values@.len());
            let upto = values@.take(i + 1);
            assert(upto.drop_last() =~= values@.take(i as int));
            assert(upto.last() == value);
            assert(ids@.take(i + 1).drop_last() =~= ids@.take(i as int));
            assert(ids@.take(i + 1).last() == ids@[i as int]);
        }
        let ghost old_known = infos_view(known@);
        match OptionalPlayerInfo::from_redis_value(value) {
            Ok(OptionalPlayerInfo::Present(info)) => {
                known.push(info);
                proof {
                    assert(infos_view(known@) =~= old_known.push(info@));
                }
            },
            Ok(OptionalPlayerInfo::Unknown) => {
                unknown.push(ids[i]);
            },
            Err(e) => {
                proof {
                    lemma_first_failure(ids@, values@, i as int, values@.len() as int);
                    assert(values@.take(values@.len() as int) =~= values@);
                    assert(ids@.take(values@.len() as int) =~= ids@);
                }
                return Err(e);
            },
        }
        i += 1;
    }
    proof {
        assert(values@.take(values@.len() as int) =~= values@);
        assert(ids@.take(values@.len() as int) =~= ids@);
    }
    Ok((known, unknown))
}

/// Once a legacy value cannot be read, the values behind it do not change
/// which one is reported.
pub proof fn lemma_first_failure(ids: Seq<PlayerId>, values: Seq<RawValue>, i: int, upto: int)
    requires
        0 <= i < upto <= values.len(),
        ids.len() == values.len(),
        legacy_split(ids.take(i), values.take(i)) is Ok,
        read_value(Generation::Legacy, values[i]) is Err,
    ensures
        legacy_split(ids.take(upto), values.take(upto)) == Err::<
            (Seq<PlayerInfoView>, Seq<PlayerId>),
            int,
        >(i),
    decreases upto - i,
{
    let head = values.take(upto);
    assert(head.drop_last() =~= values.take(upto - 1));
    assert(ids.take(upto).drop_last() =~= ids.take(upto - 1));
    assert(head.last() == values[upto - 1]);
    if upto == i + 1 {
    } else {
        lemma_first_failure(ids, values, i, upto - 1);
    }
}

} // verus!
