//! What the migration achieves against a backend that behaves as the model
//! of [`crate::backend`] says.

use vstd::prelude::*;
use crate::backend::{texts, BackendState, Command, Entry, Write};
use crate::cache::{Action, Outcome, Storage, StoreError, Task};
use crate::codec::{
    enc_record, read_value, unread_kind, DecodeErrorKind, Generation, RawValue,
};
use crate::ident::{hyphenated, PlayerId};
use crate::keys::{key_id, key_text, lapse, UNKNOWN_SET_KEY};
use crate::laws::{holds_garbage, holds_profile, profile_at};
use crate::migrate::legacy_split;
use crate::scan::{
    apart, fresh_keys, ids_of, ill_keyed, lemma_fresh_keys, lemma_ill_keyed, lemma_joined,
};
use crate::tiers::{infos_view, PlayerInfoView};

verus! {

/// The legacy entries under a list of keys, by what each key holds: the
/// profiles, and the players of the keys that hold no profile.
pub open spec fn legacy_entries(state: BackendState, now: u64, keys: Seq<Seq<char>>) -> (
    Seq<PlayerInfoView>,
    Seq<PlayerId>,
)
    decreases keys.len(),
{
    if keys.len() == 0 {
        (Seq::empty(), Seq::empty())
    } else {
        let (known, unknown) = legacy_entries(state, now, keys.drop_last());
        if holds_profile(state, keys.last(), now) {
            (known.push(profile_at(state, keys.last())), unknown)
        } else {
            (known, unknown.push(key_id(Generation::Legacy, keys.last())->0))
        }
    }
}

/// What a bulk fetch of the legacy generation yields when each value is what
/// its key holds: the entries sorted by what the keys hold, unless a key
/// holds bytes that are no record.
pub proof fn lemma_fetched_legacy(
    state: BackendState,
    now: u64,
    keys: Seq<Seq<char>>,
    values: Seq<RawValue>,
)
    requires
        keys.len() == values.len(),
        forall|i: int|
            0 <= i < keys.len() ==> (#[trigger] values[i]).reports(state.content(keys[i], now)),
    ensures
        match legacy_split(ids_of(Generation::Legacy, keys), values) {
            Ok(sorted) => sorted == legacy_entries(state, now, keys) && forall|i: int|
                0 <= i < keys.len() ==> !holds_garbage(state, #[trigger] keys[i], now),
            Err(i) => 0 <= i < keys.len() && holds_garbage(state, keys[i], now) && read_value(
                Generation::Legacy,
                values[i],
            ) == Err::<Option<Option<PlayerInfoView>>, _>(
                unread_kind(state.entries[keys[i]].value),
            ),
        },
    decreases keys.len(),
{
    let ids = ids_of(Generation::Legacy, keys);
    if keys.len() == 0 {
    } else {
        let front = keys.drop_last();
        let head = values.drop_last();
        assert forall|i: int| 0 <= i < front.len() implies (#[trigger] head[i]).reports(
            state.content(front[i], now),
        ) by {
            assert(head[i] == values[i]);
            assert(front[i] == keys[i]);
        }
        lemma_fetched_legacy(state, now, front, head);
        assert(ids.drop_last() =~= ids_of(Generation::Legacy, front));
        let last = values.len() - 1;
        assert(values[last].reports(state.content(keys[last], now)));
        match legacy_split(ids.drop_last(), head) {
            Ok(before) => {
                assert forall|i: int| 0 <= i < keys.len() && legacy_split(
                    ids,
                    values,
                ) is Ok implies !holds_garbage(state, #[trigger] keys[i], now) by {
                    if i < last {
                        assert(front[i] == keys[i]);
                    }
                }
            },
            Err(i) => {
                assert(front[i] == keys[i]);
                assert(head[i] == values[i]);
            },
        }
    }
}

/// The legacy entries under two lists of keys in a row are those under the
/// first list, then those under the second.
pub proof fn lemma_legacy_entries_joined(
    state: BackendState,
    now: u64,
    a: Seq<Seq<char>>,
    b: Seq<Seq<char>>,
)
    ensures
        legacy_entries(state, now, a + b).0 == legacy_entries(state, now, a).0 + legacy_entries(
            state,
            now,
            b,
        ).0,
        legacy_entries(state, now, a + b).1 == legacy_entries(state, now, a).1 + legacy_entries(
            state,
            now,
            b,
        ).1,
    decreases b.len(),
{
    let left = legacy_entries(state, now, a);
    let right = legacy_entries(state, now, b);
    if b.len() == 0 {
        assert(a + b =~= a);
        assert(left.0 + right.0 =~= left.0);
        assert(left.1 + right.1 =~= left.1);
    } else {
        assert((a + b).drop_last() =~= a + b.drop_last());
        assert((a + b).last() == b.last());
        lemma_legacy_entries_joined(state, now, a, b.drop_last());
        let front = legacy_entries(state, now, b.drop_last());
        if holds_profile(state, b.last(), now) {
            assert((left.0 + front.0).push(profile_at(state, b.last())) =~= left.0 + right.0);
        } else {
            let id = key_id(Generation::Legacy, b.last())->0;
            assert((left.1 + front.1).push(id) =~= left.1 + right.1);
        }
    }
}

/// What a migration holds when its walk has come to the cursor `upto`.
/// `seen` lists, without repetition, the live legacy keys that the walk has
/// passed and that lead to a player; none of them holds bytes that are no
/// record, and `known` and `unknown` hold the entries under them, sorted by
/// what the keys hold. `skipped` holds the live legacy keys that the walk has
/// passed and that lead to no player.
pub open spec fn migrating(
    state: BackendState,
    now: u64,
    upto: int,
    seen: Seq<Seq<char>>,
    known: Seq<PlayerInfoView>,
    unknown: Seq<PlayerId>,
    skipped: Seq<Seq<char>>,
) -> bool {
    &&& 0 <= upto <= state.journal.len()
    &&& seen.no_duplicates()
    &&& forall|k: Seq<char>| #[trigger]
        seen.contains(k) <==> state.passes(0, upto, k) && state.live(k, now) && key_id(
            Generation::Legacy,
            k,
        ) is Some
    &&& forall|k: Seq<char>| #[trigger]
        skipped.contains(k) <==> state.passes(0, upto, k) && state.live(k, now)
            && Generation::Legacy.prefix_text().is_prefix_of(k) && key_id(
            Generation::Legacy,
            k,
        ) is None
    &&& forall|i: int| 0 <= i < seen.len() ==> !holds_garbage(state, #[trigger] seen[i], now)
    &&& known == legacy_entries(state, now, seen).0
    &&& unknown == legacy_entries(state, now, seen).1
}

/// A page takes the walk of a migration from one cursor to the next.
pub proof fn lemma_migration_extends(
    state: BackendState,
    now: u64,
    from: int,
    upto: int,
    seen: Seq<Seq<char>>,
    known: Seq<PlayerInfoView>,
    unknown: Seq<PlayerId>,
    skipped: Seq<Seq<char>>,
    page: Seq<Seq<char>>,
)
    requires
        migrating(state, now, from, seen, known, unknown, skipped),
        from <= upto <= state.journal.len(),
        forall|k: Seq<char>| #[trigger]
            page.contains(k) <==> state.passes(from, upto, k) && state.live(k, now)
                && Generation::Legacy.prefix_text().is_prefix_of(k),
        forall|i: int|
            0 <= i < fresh_keys(Generation::Legacy, seen, page).len() ==> !holds_garbage(
                state,
                #[trigger] fresh_keys(Generation::Legacy, seen, page)[i],
                now,
            ),
    ensures
        ({
            let fresh = fresh_keys(Generation::Legacy, seen, page);
            migrating(
                state,
                now,
                upto,
                seen + fresh,
                known + legacy_entries(state, now, fresh).0,
                unknown + legacy_entries(state, now, fresh).1,
                skipped + ill_keyed(Generation::Legacy, page),
            )
        }),
{
    let generation = Generation::Legacy;
    let fresh = fresh_keys(generation, seen, page);
    let aside = ill_keyed(generation, page);
    let met = seen + fresh;
    let passed = skipped + aside;
    lemma_fresh_keys(generation, seen, page);
    lemma_ill_keyed(generation, page);
    assert(apart(seen, fresh));
    lemma_joined(seen, fresh);
    lemma_joined(skipped, aside);
    lemma_legacy_entries_joined(state, now, seen, fresh);
    assert forall|k: Seq<char>| #[trigger]
        met.contains(k) <==> state.passes(0, upto, k) && state.live(k, now) && key_id(
            generation,
            k,
        ) is Some by {
        state.lemma_passes(0, from, upto, k);
    }
    assert forall|k: Seq<char>| #[trigger]
        passed.contains(k) <==> state.passes(0, upto, k) && state.live(k, now)
            && generation.prefix_text().is_prefix_of(k) && key_id(generation, k) is None by {
        state.lemma_passes(0, from, upto, k);
    }
    assert forall|i: int| 0 <= i < met.len() implies !holds_garbage(
        state,
        #[trigger] met[i],
        now,
    ) by {
        if i < seen.len() {
            assert(met[i] == seen[i]);
        } else {
            assert(met[i] == fresh[i - seen.len()]);
        }
    }
}

impl Storage {
    /// The backend with each of the profiles stored under its player's key
    /// of the current generation, in order.
    pub open spec fn with_profiles(
        self,
        state: BackendState,
        known: Seq<PlayerInfoView>,
        now: u64,
    ) -> BackendState
        decreases known.len(),
    {
        if known.len() == 0 {
            state
        } else {
            let p = known.last();
            self.with_profile(
                self.with_profiles(state, known.drop_last(), now),
                p.uuid,
                enc_record(Some(p)),
                now,
            )
        }
    }

    /// The backend with each of the players marked as unknown, in order.
    pub open spec fn with_unknowns(
        self,
        state: BackendState,
        unknown: Seq<PlayerId>,
        now: u64,
    ) -> BackendState
        decreases unknown.len(),
    {
        if unknown.len() == 0 {
            state
        } else {
            self.with_unknown(
                self.with_unknowns(state, unknown.drop_last(), now),
                unknown.last(),
                now,
            )
        }
    }

    /// The backend after a migration of the given legacy entries.
    pub open spec fn migrated(
        self,
        state: BackendState,
        known: Seq<PlayerInfoView>,
        unknown: Seq<PlayerId>,
        now: u64,
    ) -> BackendState {
        self.with_unknowns(self.with_profiles(state, known, now), unknown, now)
    }

    /// The batch of a migration does what it is for.
    pub proof fn lemma_batch_applied(
        self,
        state: BackendState,
        writes: Seq<Write>,
        known: Seq<PlayerInfoView>,
        unknown: Seq<PlayerId>,
        now: u64,
    )
        requires
            self.is_migration_batch(writes, known, unknown, now),
        ensures
            state.after_writes(writes, now) == self.migrated(state, known, unknown, now),
        decreases writes.len(),
    {
        if writes.len() == 0 {
            assert(known.len() == 0 && unknown.len() == 0);
        } else {
            let front = writes.drop_last();
            let w = writes.last();
            if unknown.len() > 0 {
                let rest = unknown.drop_last();
                assert(self.is_migration_batch(front, known, rest, now)) by {
                    assert forall|i: int| 0 <= i < known.len() implies self.writes_profile(
                        #[trigger] front[i],
                        known[i],
                    ) by {
                        assert(front[i] == writes[i]);
                    }
                    assert forall|j: int| 0 <= j < rest.len() implies self.writes_unknown(
                        #[trigger] front[known.len() + j],
                        rest[j],
                        now,
                    ) by {
                        assert(front[known.len() + j] == writes[known.len() + j]);
                        assert(rest[j] == unknown[j]);
                    }
                }
                self.lemma_batch_applied(state, front, known, rest, now);
                let j = unknown.len() - 1;
                assert(w == writes[known.len() + j]);
                assert(self.writes_unknown(w, unknown[j], now));
                let before = state.after_writes(front, now);
                assert(before.after_write(w, now).scores =~= self.with_unknown(
                    before,
                    unknown.last(),
                    now,
                ).scores);
            } else {
                let rest = known.drop_last();
                assert(self.is_migration_batch(front, rest, unknown, now)) by {
                    assert forall|i: int| 0 <= i < rest.len() implies self.writes_profile(
                        #[trigger] front[i],
                        rest[i],
                    ) by {
                        assert(front[i] == writes[i]);
                        assert(rest[i] == known[i]);
                    }
                }
                self.lemma_batch_applied(state, front, rest, unknown, now);
                let i = known.len() - 1;
                assert(w == writes[i]);
                assert(self.writes_profile(w, known[i]));
                let before = state.after_writes(front, now);
                assert(before.after_write(w, now).entries =~= self.with_profile(
                    before,
                    known.last().uuid,
                    enc_record(Some(known.last())),
                    now,
                ).entries);
                assert(before.after_write(w, now).journal =~= self.with_profile(
                    before,
                    known.last().uuid,
                    enc_record(Some(known.last())),
                    now,
                ).journal);
            }
        }
    }

    /// Whether the backend holds a live key of the legacy generation.
    pub open spec fn legacy_finds(state: BackendState, now: u64) -> bool {
        exists|k: Seq<char>| #[trigger]
            state.live(k, now) && Generation::Legacy.prefix_text().is_prefix_of(k)
    }

    /// Whether some live key of the legacy generation that leads to a player
    /// holds bytes that are no record.
    pub open spec fn legacy_unreadable(state: BackendState, now: u64) -> bool {
        exists|k: Seq<char>| #[trigger]
            holds_garbage(state, k, now) && key_id(Generation::Legacy, k) is Some
    }

    /// Whether `keys` lists, without repetition, the live keys of the legacy
    /// generation that lead to a player.
    pub open spec fn lists_legacy(state: BackendState, now: u64, keys: Seq<Seq<char>>) -> bool {
        &&& keys.no_duplicates()
        &&& forall|k: Seq<char>| #[trigger]
            keys.contains(k) <==> state.live(k, now) && key_id(Generation::Legacy, k) is Some
    }

    /// Whether a migration that counted `known` profiles and `unknown`
    /// players and left the backend as `end` has migrated the entries under
    /// `keys`.
    pub open spec fn has_migrated(
        self,
        state: BackendState,
        now: u64,
        keys: Seq<Seq<char>>,
        end: BackendState,
        known: int,
        unknown: int,
    ) -> bool {
        let sorted = legacy_entries(state, now, keys);
        &&& Self::lists_legacy(state, now, keys)
        &&& known == sorted.0.len()
        &&& unknown == sorted.1.len()
        &&& end == self.migrated(state, sorted.0, sorted.1, now)
    }

    /// What a migration has achieved when it ends with `result` and leaves
    /// the backend as `end`.
    ///
    /// Where the legacy namespace is empty, it has reported that there is
    /// nothing to migrate and has changed nothing. Else, where a legacy key
    /// that leads to a player holds bytes that are no record, the migration
    /// has failed and has changed nothing. Else every profile of the legacy
    /// generation is stored under its player's key of the current
    /// generation, every player whose legacy entry holds no profile is
    /// marked as unknown, the report counts both, and nothing else has
    /// changed: the legacy entries stay.
    pub open spec fn migration_done(
        self,
        state: BackendState,
        now: u64,
        end: BackendState,
        result: Result<Outcome, StoreError>,
    ) -> bool {
        if !Self::legacy_finds(state, now) {
            end == state && result == Ok::<_, StoreError>(Outcome::NothingToMigrate)
        } else {
            match result {
                Ok(Outcome::Migrated(report)) => {
                    &&& !Self::legacy_unreadable(state, now)
                    &&& exists|keys: Seq<Seq<char>>| #[trigger]
                        self.has_migrated(
                            state,
                            now,
                            keys,
                            end,
                            report.known as int,
                            report.unknown as int,
                        )
                },
                Err(StoreError::Decode(e)) => {
                    &&& Self::legacy_unreadable(state, now)
                    &&& end == state
                    &&& e.kind != DecodeErrorKind::UnexpectedType
                },
                _ => false,
            }
        }
    }

    /// What the migration does: on a backend whose walks pass every key,
    /// every run of it is a migration in the sense of
    /// [`Storage::migration_done`], however the walk is cut into pages.
    pub proof fn theorem_migration(
        self,
        task: Task,
        action: Action,
        state: BackendState,
        now: u64,
        steps: nat,
        end: BackendState,
        result: Result<Outcome, StoreError>,
    )
        requires
            state.wf(),
            self.starts_migration(now, task, action),
            self.runs(task, action, state, now, steps, end, result),
        ensures
            self.migration_done(state, now, end, result),
    {
        let seen = texts(task->MigrateScan_seen@);
        let known = infos_view(task->MigrateScan_known@);
        let unknown = task->MigrateScan_unknown@;
        let skipped = texts(task->MigrateScan_skipped@);
        assert(migrating(state, now, 0, seen, known, unknown, skipped)) by {
            assert(seen =~= Seq::empty());
            assert(known =~= Seq::empty());
            assert(unknown =~= Seq::empty());
            assert forall|k: Seq<char>| !state.passes(0, 0, k) by {}
        }
        self.lemma_migration_walk(task, action, 0, state, now, steps, end, result);
    }

    /// A migration that waits for a page ends as a migration is to end.
    proof fn lemma_migration_walk(
        self,
        task: Task,
        action: Action,
        cursor: u64,
        state: BackendState,
        now: u64,
        steps: nat,
        end: BackendState,
        result: Result<Outcome, StoreError>,
    )
        requires
            state.wf(),
            task is MigrateScan,
            task->MigrateScan_now == now,
            migrating(
                state,
                now,
                cursor as int,
                texts(task->MigrateScan_seen@),
                infos_view(task->MigrateScan_known@),
                task->MigrateScan_unknown@,
                texts(task->MigrateScan_skipped@),
            ),
            action.scans(Generation::Legacy, cursor),
            self.runs(task, action, state, now, steps, end, result),
        ensures
            self.migration_done(state, now, end, result),
        decreases steps, 0nat,
    {
        let generation = Generation::Legacy;
        let seen = texts(task->MigrateScan_seen@);
        let known = infos_view(task->MigrateScan_known@);
        let unknown = task->MigrateScan_unknown@;
        let skipped = texts(task->MigrateScan_skipped@);
        let scan = action->Send_0;
        let (reply, next, following) = self.lemma_run_step(
            task,
            scan,
            state,
            now,
            steps,
            end,
            result,
        );
        let left = (steps - 1) as nat;
        let onward = reply->Page_cursor;
        let page = texts(reply->Page_keys@);
        let upto = if onward == 0 {
            state.journal.len() as int
        } else {
            onward as int
        };
        let fresh = fresh_keys(generation, seen, page);
        let passed = skipped + ill_keyed(generation, page);
        lemma_fresh_keys(generation, seen, page);
        if fresh.len() > 0 {
            let fetch = following->Send_0;
            let fetched = fetch->MultiGet_keys;
            let (reply2, next2, following2) = self.lemma_run_step(
                next,
                fetch,
                state,
                now,
                left,
                end,
                result,
            );
            let left2 = (left - 1) as nat;
            let vs = reply2->Values_0;
            assert forall|i: int| 0 <= i < fresh.len() implies (#[trigger] vs@[i]).reports(
                state.content(fresh[i], now),
            ) by {
                assert(fresh[i] == fetched@[i]@);
            }
            lemma_fetched_legacy(state, now, fresh, vs@);
            let ids = next->MigrateFetch_ids;
            match legacy_split(ids@, vs@) {
                Ok(sorted) => {
                    lemma_migration_extends(
                        state,
                        now,
                        cursor as int,
                        upto,
                        seen,
                        known,
                        unknown,
                        skipped,
                        page,
                    );
                    self.lemma_migrates_on(
                        onward,
                        seen + fresh,
                        known + sorted.0,
                        unknown + sorted.1,
                        passed,
                        next2,
                        following2,
                        state,
                        now,
                        left2,
                        end,
                        result,
                    );
                },
                Err(i) => {
                    self.lemma_run_end(
                        next2,
                        following2->Finish_0,
                        state,
                        now,
                        left2,
                        end,
                        result,
                    );
                    assert(fresh.contains(fresh[i]));
                    assert(holds_garbage(state, fresh[i], now) && key_id(generation, fresh[i]) is Some);
                    assert(state.live(fresh[i], now) && generation.prefix_text().is_prefix_of(
                        fresh[i],
                    ));
                },
            }
        } else {
            lemma_migration_extends(
                state,
                now,
                cursor as int,
                upto,
                seen,
                known,
                unknown,
                skipped,
                page,
            );
            assert(seen + fresh =~= seen);
            assert(known + legacy_entries(state, now, fresh).0 =~= known);
            assert(unknown + legacy_entries(state, now, fresh).1 =~= unknown);
            self.lemma_migrates_on(
                onward,
                seen,
                known,
                unknown,
                passed,
                next,
                following,
                state,
                now,
                left,
                end,
                result,
            );
        }
    }

    /// A migration that has dealt with a page ends as a migration is to end.
    proof fn lemma_migrates_on(
        self,
        cursor: u64,
        seen: Seq<Seq<char>>,
        known: Seq<PlayerInfoView>,
        unknown: Seq<PlayerId>,
        skipped: Seq<Seq<char>>,
        task: Task,
        action: Action,
        state: BackendState,
        now: u64,
        steps: nat,
        end: BackendState,
        result: Result<Outcome, StoreError>,
    )
        requires
            state.wf(),
            migrating(
                state,
                now,
                if cursor == 0 {
                    state.journal.len() as int
                } else {
                    cursor as int
                },
                seen,
                known,
                unknown,
                skipped,
            ),
            self.migrates_on(now, cursor, seen, known, unknown, skipped, task, action),
            self.runs(task, action, state, now, steps, end, result),
        ensures
            self.migration_done(state, now, end, result),
        decreases steps, 1nat,
    {
        let generation = Generation::Legacy;
        if cursor != 0 {
            self.lemma_migration_walk(task, action, cursor, state, now, steps, end, result);
        } else {
            assert(Self::lists_legacy(state, now, seen)) by {
                assert forall|k: Seq<char>| #[trigger]
                    seen.contains(k) <==> state.live(k, now) && key_id(generation, k) is Some by {
                    if state.live(k, now) && key_id(generation, k) is Some {
                        state.lemma_passes_all(k);
                    }
                }
            }
            assert forall|k: Seq<char>| !(#[trigger] holds_garbage(state, k, now) && key_id(
                generation,
                k,
            ) is Some) by {
                if holds_garbage(state, k, now) && key_id(generation, k) is Some {
                    assert(seen.contains(k));
                    let i = choose|i: int| 0 <= i < seen.len() && seen[i] == k;
                    assert(!holds_garbage(state, seen[i], now));
                }
            }
            if seen.len() > 0 {
                assert(seen.contains(seen[0]));
                assert(state.live(seen[0], now) && generation.prefix_text().is_prefix_of(seen[0]));
                let batch = action->Send_0;
                let ws = batch->Pipeline_0;
                let (reply, next, following) = self.lemma_run_step(
                    task,
                    batch,
                    state,
                    now,
                    steps,
                    end,
                    result,
                );
                self.lemma_run_end(
                    next,
                    following->Finish_0,
                    state.after(batch, now),
                    now,
                    (steps - 1) as nat,
                    end,
                    result,
                );
                self.lemma_batch_applied(state, ws@, known, unknown, now);
                let report = result->Ok_0->Migrated_0;
                assert(self.has_migrated(
                    state,
                    now,
                    seen,
                    end,
                    report.known as int,
                    report.unknown as int,
                ));
            } else {
                self.lemma_run_end(task, action->Finish_0, state, now, steps, end, result);
                if skipped.len() == 0 {
                    assert forall|k: Seq<char>| !(#[trigger] state.live(k, now)
                        && generation.prefix_text().is_prefix_of(k)) by {
                        if state.live(k, now) && generation.prefix_text().is_prefix_of(k) {
                            state.lemma_passes_all(k);
                            if key_id(generation, k) is Some {
                                assert(seen.contains(k));
                            } else {
                                assert(skipped.contains(k));
                            }
                        }
                    }
                } else {
                    assert(skipped.contains(skipped[0]));
                    assert(state.live(skipped[0], now) && generation.prefix_text().is_prefix_of(
                        skipped[0],
                    ));
                    let report = result->Ok_0->Migrated_0;
                    assert(self.has_migrated(
                        state,
                        now,
                        seen,
                        end,
                        report.known as int,
                        report.unknown as int,
                    ));
                }
            }
        }
    }

    /// Empty input, second half. Where the backend holds no key of the legacy
    /// generation, the migration ends well, reports that there was nothing to
    /// migrate, and changes nothing.
    pub proof fn law_empty_migration(
        self,
        task: Task,
        action: Action,
        state: BackendState,
        now: u64,
        steps: nat,
        end: BackendState,
        result: Result<Outcome, StoreError>,
    )
        requires
            state.wf(),
            !Self::legacy_finds(state, now),
            self.starts_migration(now, task, action),
            self.runs(task, action, state, now, steps, end, result),
        ensures
            result == Ok::<_, StoreError>(Outcome::NothingToMigrate),
            end == state,
    {
        self.theorem_migration(task, action, state, now, steps, end, result);
    }

    /// Whether one of the profiles goes to the given key of the current
    /// generation.
    pub open spec fn targets(known: Seq<PlayerInfoView>, key: Seq<char>) -> bool {
        exists|i: int| 0 <= i < known.len() && key_text(Generation::Current, #[trigger] known[i].uuid) == key
    }

    /// Whether one of the players is the given member of the unknown-set.
    pub open spec fn names(unknown: Seq<PlayerId>, member: Seq<char>) -> bool {
        exists|j: int| 0 <= j < unknown.len() && hyphenated((#[trigger] unknown[j]).0) == member
    }

    /// Whether no two of the profiles go to the same key.
    pub open spec fn distinct_targets(known: Seq<PlayerInfoView>) -> bool {
        forall|i: int, j: int|
            0 <= i < known.len() && 0 <= j < known.len() && i != j ==> key_text(
                Generation::Current,
                #[trigger] known[i].uuid,
            ) != key_text(Generation::Current, #[trigger] known[j].uuid)
    }

    /// What storing a list of profiles does: each key that a profile goes to
    /// holds the record of such a profile, with the profile lifetime; every
    /// other key and every score is as before.
    pub proof fn lemma_with_profiles(self, state: BackendState, known: Seq<PlayerInfoView>, now: u64)
        ensures
            self.with_profiles(state, known, now).scores == state.scores,
            forall|key: Seq<char>| #[trigger]
                self.with_profiles(state, known, now).entries.dom().contains(key)
                    <==> state.entries.dom().contains(key) || Self::targets(known, key),
            forall|key: Seq<char>|
                !Self::targets(known, key) ==> #[trigger] self.with_profiles(
                    state,
                    known,
                    now,
                ).entries[key] == state.entries[key],
            forall|key: Seq<char>|
                Self::targets(known, key) ==> exists|i: int|
                    0 <= i < known.len() && key_text(Generation::Current, #[trigger] known[i].uuid)
                        == key && self.with_profiles(state, known, now).entries[key] == (Entry {
                        value: enc_record(Some(known[i])),
                        expires_at: lapse(now, self.profile_ttl),
                    }),
        decreases known.len(),
    {
        let after = self.with_profiles(state, known, now);
        if known.len() == 0 {
        } else {
            let front = known.drop_last();
            let last = known.len() - 1;
            let p = known[last];
            let target = key_text(Generation::Current, p.uuid);
            self.lemma_with_profiles(state, front, now);
            let before = self.with_profiles(state, front, now);
            assert forall|key: Seq<char>| Self::targets(front, key) implies Self::targets(
                known,
                key,
            ) by {
                let i = choose|i: int|
                    0 <= i < front.len() && key_text(Generation::Current, #[trigger] front[i].uuid)
                        == key;
                assert(known[i] == front[i]);
            }
            assert forall|key: Seq<char>| Self::targets(known, key) && key
                != target implies Self::targets(front, key) by {
                let i = choose|i: int|
                    0 <= i < known.len() && key_text(Generation::Current, #[trigger] known[i].uuid)
                        == key;
                assert(front[i] == known[i]);
            }
            assert(Self::targets(known, target)) by {
                assert(key_text(Generation::Current, known[last].uuid) == target);
            }
            assert forall|key: Seq<char>| Self::targets(known, key) implies exists|i: int|
                0 <= i < known.len() && key_text(Generation::Current, #[trigger] known[i].uuid)
                    == key && after.entries[key] == (Entry {
                    value: enc_record(Some(known[i])),
                    expires_at: lapse(now, self.profile_ttl),
                }) by {
                if key == target {
                    assert(key_text(Generation::Current, known[last].uuid) == key);
                } else {
                    let i = choose|i: int|
                        0 <= i < front.len() && key_text(
                            Generation::Current,
                            #[trigger] front[i].uuid,
                        ) == key && before.entries[key] == (Entry {
                            value: enc_record(Some(front[i])),
                            expires_at: lapse(now, self.profile_ttl),
                        });
                    assert(known[i] == front[i]);
                }
            }
        }
    }

    /// What marking a list of players does: each of them is a member of the
    /// unknown-set with the marker lifetime; every other score and every
    /// entry is as before.
    pub proof fn lemma_with_unknowns(self, state: BackendState, unknown: Seq<PlayerId>, now: u64)
        ensures
            self.with_unknowns(state, unknown, now).entries == state.entries,
            forall|set: Seq<char>, m: Seq<char>| #[trigger]
                self.with_unknowns(state, unknown, now).scores.dom().contains((set, m))
                    <==> state.scores.dom().contains((set, m)) || (set == UNKNOWN_SET_KEY@
                    && Self::names(unknown, m)),
            forall|set: Seq<char>, m: Seq<char>|
                !(set == UNKNOWN_SET_KEY@ && Self::names(unknown, m)) ==> #[trigger] self.with_unknowns(
                    state,
                    unknown,
                    now,
                ).scores[(set, m)] == state.scores[(set, m)],
            forall|m: Seq<char>|
                Self::names(unknown, m) ==> #[trigger] self.with_unknowns(
                    state,
                    unknown,
                    now,
                ).scores[(UNKNOWN_SET_KEY@, m)] == lapse(now, self.unknown_ttl),
        decreases unknown.len(),
    {
        if unknown.len() == 0 {
        } else {
            let front = unknown.drop_last();
            let last = unknown.len() - 1;
            let member = hyphenated(unknown[last].0);
            self.lemma_with_unknowns(state, front, now);
            assert forall|m: Seq<char>| Self::names(front, m) implies Self::names(unknown, m) by {
                let j = choose|j: int|
                    0 <= j < front.len() && hyphenated((#[trigger] front[j]).0) == m;
                assert(unknown[j] == front[j]);
            }
            assert forall|m: Seq<char>| Self::names(unknown, m) && m != member implies Self::names(
                front,
                m,
            ) by {
                let j = choose|j: int|
                    0 <= j < unknown.len() && hyphenated((#[trigger] unknown[j]).0) == m;
                assert(front[j] == unknown[j]);
            }
            assert(Self::names(unknown, member)) by {
                assert(hyphenated(unknown[last].0) == member);
            }
        }
    }

    /// The two generations do not share a key: what starts with the prefix of
    /// the legacy generation is no key of the current one.
    pub proof fn lemma_generations_apart(key: Seq<char>, uuid: PlayerId)
        requires
            Generation::Legacy.prefix_text().is_prefix_of(key),
        ensures
            key != key_text(Generation::Current, uuid),
    {
        reveal_strlit("tiers-v1-profile");
        reveal_strlit("tiers-v2-profile");
        let legacy = Generation::Legacy.prefix_text();
        let current = Generation::Current.prefix_text();
        assert(legacy[7] == '1');
        assert(current[7] == '2');
        assert(key[7] == legacy[7]);
        assert(key_text(Generation::Current, uuid)[7] == current[7]);
    }

    /// Whether the profile is the one under one of the keys.
    pub open spec fn stored_under(
        state: BackendState,
        now: u64,
        keys: Seq<Seq<char>>,
        p: PlayerInfoView,
    ) -> bool {
        exists|k: Seq<char>| #[trigger]
            keys.contains(k) && holds_profile(state, k, now) && p == profile_at(state, k)
    }

    /// Every profile among the legacy entries is the profile under one of the
    /// keys.
    pub proof fn lemma_legacy_profiles(state: BackendState, now: u64, keys: Seq<Seq<char>>)
        ensures
            forall|i: int|
                0 <= i < legacy_entries(state, now, keys).0.len() ==> Self::stored_under(
                    state,
                    now,
                    keys,
                    #[trigger] legacy_entries(state, now, keys).0[i],
                ),
        decreases keys.len(),
    {
        let known = legacy_entries(state, now, keys).0;
        if keys.len() == 0 {
        } else {
            let front = keys.drop_last();
            let before = legacy_entries(state, now, front).0;
            Self::lemma_legacy_profiles(state, now, front);
            assert forall|i: int| 0 <= i < known.len() implies Self::stored_under(
                state,
                now,
                keys,
                #[trigger] known[i],
            ) by {
                if i < before.len() {
                    assert(Self::stored_under(state, now, front, before[i]));
                    let k = choose|k: Seq<char>| #[trigger]
                        front.contains(k) && holds_profile(state, k, now) && before[i]
                            == profile_at(state, k);
                    let at = choose|at: int| 0 <= at < front.len() && front[at] == k;
                    assert(keys[at] == k);
                    assert(keys.contains(k));
                } else {
                    assert(keys[keys.len() - 1] == keys.last());
                    assert(keys.contains(keys.last()));
                }
            }
        }
    }

    /// Every key that holds a profile has that profile among the legacy
    /// entries.
    pub proof fn lemma_legacy_profiles_found(
        state: BackendState,
        now: u64,
        keys: Seq<Seq<char>>,
        key: Seq<char>,
    ) -> (i: int)
        requires
            keys.contains(key),
            holds_profile(state, key, now),
        ensures
            0 <= i < legacy_entries(state, now, keys).0.len(),
            legacy_entries(state, now, keys).0[i] == profile_at(state, key),
        decreases keys.len(),
    {
        let front = keys.drop_last();
        let before = legacy_entries(state, now, front).0;
        if keys.last() == key {
            before.len() as int
        } else {
            let at = choose|at: int| 0 <= at < keys.len() && keys[at] == key;
            assert(front[at] == key);
            Self::lemma_legacy_profiles_found(state, now, front, key)
        }
    }

    /// Every player among the legacy entries without a profile is named
    /// there.
    pub proof fn lemma_legacy_counts(state: BackendState, now: u64, keys: Seq<Seq<char>>)
        ensures
            legacy_entries(state, now, keys).0.len() + legacy_entries(state, now, keys).1.len()
                == keys.len(),
        decreases keys.len(),
    {
        if keys.len() > 0 {
            Self::lemma_legacy_counts(state, now, keys.drop_last());
        }
    }

    /// What a finished migration has achieved, entry by entry. `keys` lists
    /// the legacy keys that were migrated and `end` is the backend afterwards.
    ///
    /// Every legacy profile that goes to a key of its own is stored there as
    /// it was, with the profile lifetime. The keys that hold something are the
    /// ones that did before and the ones that a profile went to, and every
    /// key that no profile went to holds what it held. Every player without a
    /// legacy profile is a member of the unknown-set, with the marker
    /// lifetime; the members are the ones from before and these, and every
    /// other score is as it was. No entry of the legacy generation was touched.
    pub open spec fn migration_complete(
        self,
        state: BackendState,
        now: u64,
        keys: Seq<Seq<char>>,
        end: BackendState,
    ) -> bool {
        let known = legacy_entries(state, now, keys).0;
        let unknown = legacy_entries(state, now, keys).1;
        &&& known.len() + unknown.len() == keys.len()
        &&& Self::distinct_targets(known) ==> forall|i: int|
            0 <= i < known.len() ==> end.entries.dom().contains(
                key_text(Generation::Current, #[trigger] known[i].uuid),
            ) && end.entries[key_text(Generation::Current, known[i].uuid)] == (Entry {
                value: enc_record(Some(known[i])),
                expires_at: lapse(now, self.profile_ttl),
            })
        &&& forall|key: Seq<char>| #[trigger]
            end.entries.dom().contains(key) <==> state.entries.dom().contains(key)
                || Self::targets(known, key)
        &&& forall|key: Seq<char>|
            !Self::targets(known, key) ==> #[trigger] end.entries[key] == state.entries[key]
        &&& forall|j: int|
            0 <= j < unknown.len() ==> end.score(
                UNKNOWN_SET_KEY@,
                hyphenated((#[trigger] unknown[j]).0),
            ) == Some(lapse(now, self.unknown_ttl))
        &&& forall|set: Seq<char>, m: Seq<char>| #[trigger]
            end.scores.dom().contains((set, m)) <==> state.scores.dom().contains((set, m)) || (
            set == UNKNOWN_SET_KEY@ && Self::names(unknown, m))
        &&& forall|set: Seq<char>, m: Seq<char>|
            !(set == UNKNOWN_SET_KEY@ && Self::names(unknown, m)) ==> #[trigger] end.scores[(
                set,
                m,
            )] == state.scores[(set, m)]
        &&& forall|k: Seq<char>|
            Generation::Legacy.prefix_text().is_prefix_of(k) ==> (#[trigger] end.entries.dom().contains(
                k,
            ) <==> state.entries.dom().contains(k)) && end.entries[k] == state.entries[k]
    }

    /// A migrated backend is complete in the sense of
    /// [`Storage::migration_complete`].
    pub proof fn lemma_migration_complete(
        self,
        state: BackendState,
        now: u64,
        keys: Seq<Seq<char>>,
        end: BackendState,
        known: int,
        unknown: int,
    )
        requires
            self.has_migrated(state, now, keys, end, known, unknown),
        ensures
            self.migration_complete(state, now, keys, end),
    {
        let profiles = legacy_entries(state, now, keys).0;
        let players = legacy_entries(state, now, keys).1;
        let stored = self.with_profiles(state, profiles, now);
        Self::lemma_legacy_counts(state, now, keys);
        self.lemma_with_profiles(state, profiles, now);
        self.lemma_with_unknowns(stored, players, now);
        assert forall|j: int| 0 <= j < players.len() implies end.score(
            UNKNOWN_SET_KEY@,
            hyphenated((#[trigger] players[j]).0),
        ) == Some(lapse(now, self.unknown_ttl)) by {
            assert(Self::names(players, hyphenated(players[j].0)));
        }
        assert forall|k: Seq<char>|
            Generation::Legacy.prefix_text().is_prefix_of(k) implies (#[trigger] end.entries.dom().contains(
            k,
        ) <==> state.entries.dom().contains(k)) && end.entries[k] == state.entries[k] by {
            if Self::targets(profiles, k) {
                let i = choose|i: int|
                    0 <= i < profiles.len() && key_text(
                        Generation::Current,
                        #[trigger] profiles[i].uuid,
                    ) == k;
                Self::lemma_generations_apart(k, profiles[i].uuid);
            }
        }
        if Self::distinct_targets(profiles) {
            assert forall|i: int| 0 <= i < profiles.len() implies end.entries.dom().contains(
                key_text(Generation::Current, #[trigger] profiles[i].uuid),
            ) && end.entries[key_text(Generation::Current, profiles[i].uuid)] == (Entry {
                value: enc_record(Some(profiles[i])),
                expires_at: lapse(now, self.profile_ttl),
            }) by {
                let key = key_text(Generation::Current, profiles[i].uuid);
                assert(Self::targets(profiles, key));
            }
        }
    }

    /// A migrated backend keeps every key that holds something on the path of
    /// a walk.
    pub proof fn lemma_migrated_wf(
        self,
        state: BackendState,
        known: Seq<PlayerInfoView>,
        unknown: Seq<PlayerId>,
        now: u64,
    )
        requires
            state.wf(),
        ensures
            self.migrated(state, known, unknown, now).wf(),
    {
        self.lemma_with_profiles_wf(state, known, now);
        self.lemma_with_unknowns(self.with_profiles(state, known, now), unknown, now);
        self.lemma_with_unknowns_journal(self.with_profiles(state, known, now), unknown, now);
    }

    /// Storing profiles keeps every key that holds something on the path of
    /// a walk.
    pub proof fn lemma_with_profiles_wf(
        self,
        state: BackendState,
        known: Seq<PlayerInfoView>,
        now: u64,
    )
        requires
            state.wf(),
        ensures
            self.with_profiles(state, known, now).wf(),
        decreases known.len(),
    {
        if known.len() > 0 {
            self.lemma_with_profiles_wf(state, known.drop_last(), now);
            let before = self.with_profiles(state, known.drop_last(), now);
            let after = self.with_profiles(state, known, now);
            assert forall|k: Seq<char>| after.entries.dom().contains(k) implies #[trigger] after.journal.contains(
                k,
            ) by {
                if before.entries.dom().contains(k) {
                    assert(before.journal.contains(k));
                    let i = choose|i: int| 0 <= i < before.journal.len() && before.journal[i] == k;
                    assert(after.journal[i] == k);
                } else {
                    assert(after.journal[after.journal.len() - 1] == k);
                }
            }
        }
    }

    /// Marking players leaves the path of a walk as it is.
    pub proof fn lemma_with_unknowns_journal(
        self,
        state: BackendState,
        unknown: Seq<PlayerId>,
        now: u64,
    )
        ensures
            self.with_unknowns(state, unknown, now).journal == state.journal,
        decreases unknown.len(),
    {
        if unknown.len() > 0 {
            self.lemma_with_unknowns_journal(state, unknown.drop_last(), now);
        }
    }

    /// Migration completeness. On a backend where the legacy namespace holds
    /// something and every legacy value reads, one run of the migration
    /// stores every legacy profile under the current scheme, as it was, and
    /// marks every player without a legacy profile as unknown; it counts both
    /// in its report, adds nothing else, and touches no legacy entry.
    pub proof fn law_migration_completeness(
        self,
        task: Task,
        action: Action,
        state: BackendState,
        now: u64,
        steps: nat,
        end: BackendState,
        result: Result<Outcome, StoreError>,
    )
        requires
            state.wf(),
            Self::legacy_finds(state, now),
            !Self::legacy_unreadable(state, now),
            self.starts_migration(now, task, action),
            self.runs(task, action, state, now, steps, end, result),
        ensures
            result matches Ok(Outcome::Migrated(report)) && (exists|keys: Seq<Seq<char>>| #[trigger]
                self.has_migrated(
                    state,
                    now,
                    keys,
                    end,
                    report.known as int,
                    report.unknown as int,
                ) && self.migration_complete(state, now, keys, end)),
    {
        self.theorem_migration(task, action, state, now, steps, end, result);
        let report = result->Ok_0->Migrated_0;
        let keys = choose|keys: Seq<Seq<char>>| #[trigger]
            self.has_migrated(state, now, keys, end, report.known as int, report.unknown as int);
        self.lemma_migration_complete(
            state,
            now,
            keys,
            end,
            report.known as int,
            report.unknown as int,
        );
    }

    /// Whether the player is that of one of the keys that hold no profile.
    pub open spec fn marked_under(
        state: BackendState,
        now: u64,
        keys: Seq<Seq<char>>,
        id: PlayerId,
    ) -> bool {
        exists|k: Seq<char>| #[trigger]
            keys.contains(k) && !holds_profile(state, k, now) && id == key_id(
                Generation::Legacy,
                k,
            )->0
    }

    /// Every player among the legacy entries is that of one of the keys that
    /// hold no profile.
    pub proof fn lemma_legacy_players(state: BackendState, now: u64, keys: Seq<Seq<char>>)
        ensures
            forall|i: int|
                0 <= i < legacy_entries(state, now, keys).1.len() ==> Self::marked_under(
                    state,
                    now,
                    keys,
                    #[trigger] legacy_entries(state, now, keys).1[i],
                ),
        decreases keys.len(),
    {
        let players = legacy_entries(state, now, keys).1;
        if keys.len() == 0 {
        } else {
            let front = keys.drop_last();
            let before = legacy_entries(state, now, front).1;
            Self::lemma_legacy_players(state, now, front);
            assert forall|i: int| 0 <= i < players.len() implies Self::marked_under(
                state,
                now,
                keys,
                #[trigger] players[i],
            ) by {
                if i < before.len() {
                    assert(Self::marked_under(state, now, front, before[i]));
                    let k = choose|k: Seq<char>| #[trigger]
                        front.contains(k) && !holds_profile(state, k, now) && before[i] == key_id(
                            Generation::Legacy,
                            k,
                        )->0;
                    let at = choose|at: int| 0 <= at < front.len() && front[at] == k;
                    assert(keys[at] == k);
                    assert(keys.contains(k));
                } else {
                    assert(keys[keys.len() - 1] == keys.last());
                    assert(keys.contains(keys.last()));
                }
            }
        }
    }

    /// Every key that holds no profile has its player among the legacy
    /// entries.
    pub proof fn lemma_legacy_players_found(
        state: BackendState,
        now: u64,
        keys: Seq<Seq<char>>,
        key: Seq<char>,
    ) -> (i: int)
        requires
            keys.contains(key),
            !holds_profile(state, key, now),
        ensures
            0 <= i < legacy_entries(state, now, keys).1.len(),
            legacy_entries(state, now, keys).1[i] == key_id(Generation::Legacy, key)->0,
        decreases keys.len(),
    {
        let front = keys.drop_last();
        let before = legacy_entries(state, now, front).1;
        if keys.last() == key {
            before.len() as int
        } else {
            let at = choose|at: int| 0 <= at < keys.len() && keys[at] == key;
            assert(front[at] == key);
            Self::lemma_legacy_players_found(state, now, front, key)
        }
    }

    /// A second run of the migration is harmless. After a migration in which
    /// no two legacy profiles went to the same key, a later run ends well,
    /// removes no entry, leaves the value of every entry as the first run left
    /// it, and leaves the unknown-set with the members it had: a member may
    /// get a new score, none is added and none is removed.
    pub proof fn law_migration_rerun(
        self,
        state: BackendState,
        now: u64,
        keys: Seq<Seq<char>>,
        migrated: BackendState,
        known: int,
        unknown: int,
        task: Task,
        action: Action,
        later: u64,
        steps: nat,
        end: BackendState,
        result: Result<Outcome, StoreError>,
    )
        requires
            state.wf(),
            !Self::legacy_unreadable(state, now),
            self.has_migrated(state, now, keys, migrated, known, unknown),
            Self::distinct_targets(legacy_entries(state, now, keys).0),
            now <= later,
            self.starts_migration(later, task, action),
            self.runs(task, action, migrated, later, steps, end, result),
        ensures
            result is Ok,
            forall|key: Seq<char>| #[trigger]
                migrated.entries.dom().contains(key) ==> end.entries.dom().contains(key)
                    && end.entries[key].value == migrated.entries[key].value,
            forall|set: Seq<char>, m: Seq<char>| #[trigger]
                migrated.scores.dom().contains((set, m)) ==> end.scores.dom().contains((set, m)),
            end.scores.dom() == migrated.scores.dom(),
    {
        let first = legacy_entries(state, now, keys).0;
        let marked = legacy_entries(state, now, keys).1;
        self.lemma_with_unknowns(self.with_profiles(state, first, now), marked, now);
        self.lemma_migration_complete(state, now, keys, migrated, known, unknown);
        self.lemma_migrated_wf(state, first, legacy_entries(state, now, keys).1, now);
        self.theorem_migration(task, action, migrated, later, steps, end, result);
        assert forall|k: Seq<char>| !(#[trigger] holds_garbage(migrated, k, later) && key_id(
            Generation::Legacy,
            k,
        ) is Some) by {
            if holds_garbage(migrated, k, later) && key_id(Generation::Legacy, k) is Some {
                assert(migrated.entries[k] == state.entries[k]);
                assert(holds_garbage(state, k, now));
            }
        }
        if Self::legacy_finds(migrated, later) {
            let report = result->Ok_0->Migrated_0;
            let again = choose|again: Seq<Seq<char>>| #[trigger]
                self.has_migrated(
                    migrated,
                    later,
                    again,
                    end,
                    report.known as int,
                    report.unknown as int,
                );
            let second = legacy_entries(migrated, later, again).0;
            let players = legacy_entries(migrated, later, again).1;
            let stored = self.with_profiles(migrated, second, later);
            self.lemma_with_profiles(migrated, second, later);
            self.lemma_with_unknowns(stored, players, later);
            Self::lemma_legacy_profiles(migrated, later, again);
            Self::lemma_legacy_players(migrated, later, again);
            assert forall|set: Seq<char>, m: Seq<char>| #[trigger]
                end.scores.dom().contains((set, m)) implies migrated.scores.dom().contains(
                (set, m),
            ) by {
                if !migrated.scores.dom().contains((set, m)) {
                    assert(Self::names(players, m));
                    let j = choose|j: int|
                        0 <= j < players.len() && hyphenated((#[trigger] players[j]).0) == m;
                    assert(Self::marked_under(migrated, later, again, players[j]));
                    let k = choose|k: Seq<char>| #[trigger]
                        again.contains(k) && !holds_profile(migrated, k, later) && players[j]
                            == key_id(Generation::Legacy, k)->0;
                    assert(migrated.entries[k] == state.entries[k]);
                    assert(state.live(k, now));
                    assert(keys.contains(k));
                    assert(!holds_profile(state, k, now));
                    let at = Self::lemma_legacy_players_found(state, now, keys, k);
                    assert(hyphenated(marked[at].0) == m);
                    assert(Self::names(marked, m));
                }
            }
            assert forall|pair: (Seq<char>, Seq<char>)|
                end.scores.dom().contains(pair) <==> migrated.scores.dom().contains(pair) by {
                assert(pair == (pair.0, pair.1));
                if end.scores.dom().contains((pair.0, pair.1)) {
                    assert(migrated.scores.dom().contains((pair.0, pair.1)));
                }
                if migrated.scores.dom().contains((pair.0, pair.1)) {
                    assert(end.scores.dom().contains((pair.0, pair.1)));
                }
            }
            assert(end.scores.dom() =~= migrated.scores.dom());
            assert forall|key: Seq<char>| #[trigger]
                migrated.entries.dom().contains(key) implies end.entries.dom().contains(key)
                && end.entries[key].value == migrated.entries[key].value by {
                if Self::targets(second, key) {
                    let i = choose|i: int|
                        0 <= i < second.len() && key_text(
                            Generation::Current,
                            #[trigger] second[i].uuid,
                        ) == key && stored.entries[key] == (Entry {
                            value: enc_record(Some(second[i])),
                            expires_at: lapse(later, self.profile_ttl),
                        });
                    let p = second[i];
                    assert(Self::stored_under(migrated, later, again, p));
                    let k = choose|k: Seq<char>| #[trigger]
                        again.contains(k) && holds_profile(migrated, k, later) && p == profile_at(
                            migrated,
                            k,
                        );
                    assert(migrated.entries[k] == state.entries[k]);
                    assert(holds_profile(state, k, now));
                    assert(keys.contains(k));
                    let at = Self::lemma_legacy_profiles_found(state, now, keys, k);
                    assert(first[at] == p);
                    assert(key_text(Generation::Current, first[at].uuid) == key);
                }
            }
        }
    }
}

} // verus!
