//! What the operations of the cache achieve against a backend that behaves as
//! the model of [`crate::backend`] says: one theorem for each operation, and
//! the laws of the cache that follow from them.

use vstd::prelude::*;
use crate::backend::{texts, BackendState, Command, Entry, Reply};
use crate::cache::{Action, Outcome, Storage, StoreError, Task, Upstream};
use crate::codec::{
    enc_record, parse_record, reads_back, read_value, unread_kind, DecodeErrorKind,
    Generation, RawValue,
};
use crate::ident::{hyphenated, PlayerId};
use crate::keys::{key_id, key_text, lapse, UNKNOWN_SET_KEY};
use crate::scan::{
    apart, fresh_keys, ill_keyed, lemma_fresh_keys, lemma_ill_keyed, lemma_joined, member_ids,
    present_profiles,
};
use crate::tiers::{infos_view, PlayerInfo, PlayerInfoView};

verus! {

/// Whether a key holds a profile at the given time.
pub open spec fn holds_profile(state: BackendState, key: Seq<char>, now: u64) -> bool {
    state.content(key, now) matches Some(bytes) && parse_record(bytes) matches Some(Some(_))
}

/// Whether a key holds bytes that are no record at the given time.
pub open spec fn holds_garbage(state: BackendState, key: Seq<char>, now: u64) -> bool {
    state.content(key, now) matches Some(bytes) && parse_record(bytes) is None
}

/// The profile that a key holds.
pub open spec fn profile_at(state: BackendState, key: Seq<char>) -> PlayerInfoView {
    parse_record(state.entries[key].value)->0->0
}

/// The keys of a list that hold a profile, in order.
pub open spec fn profile_keys(state: BackendState, now: u64, keys: Seq<Seq<char>>) -> Seq<
    Seq<char>,
>
    decreases keys.len(),
{
    if keys.len() == 0 {
        Seq::empty()
    } else {
        let before = profile_keys(state, now, keys.drop_last());
        if holds_profile(state, keys.last(), now) {
            before.push(keys.last())
        } else {
            before
        }
    }
}

/// Whether `known` lists the cached profiles of the current generation, each
/// once: `keys` names, without repetition, exactly the live keys that lead to
/// a player and hold a profile, and `known` holds the profile of each, in the
/// same order.
pub open spec fn enumerates_profiles(
    state: BackendState,
    now: u64,
    keys: Seq<Seq<char>>,
    known: Seq<PlayerInfoView>,
) -> bool {
    &&& keys.no_duplicates()
    &&& forall|k: Seq<char>| #[trigger]
        keys.contains(k) <==> key_id(Generation::Current, k) is Some && holds_profile(
            state,
            k,
            now,
        )
    &&& known.len() == keys.len()
    &&& forall|i: int| 0 <= i < keys.len() ==> #[trigger] known[i] == profile_at(state, keys[i])
}

/// Whether `unknown` lists the players whose marker has not lapsed: `members`
/// names, without repetition, exactly the members of the unknown-set whose
/// score is greater than `now`, and `unknown` holds the players they name.
pub open spec fn enumerates_unknown(
    state: BackendState,
    now: u64,
    members: Seq<Seq<char>>,
    unknown: Seq<PlayerId>,
) -> bool {
    &&& members.no_duplicates()
    &&& forall|m: Seq<char>| #[trigger]
        members.contains(m) <==> (state.score(UNKNOWN_SET_KEY@, m) matches Some(s) && s > now)
    &&& unknown == member_ids(members)
}

/// The backend without the markers of the unknown-set that have lapsed.
pub open spec fn purged(state: BackendState, now: u64) -> BackendState {
    BackendState { scores: state.scores.remove_keys(state.lapsed(UNKNOWN_SET_KEY@, now)), ..state }
}

/// The keys that hold a profile are picked from the list without repetition.
pub proof fn lemma_profile_keys(state: BackendState, now: u64, keys: Seq<Seq<char>>)
    requires
        keys.no_duplicates(),
    ensures
        profile_keys(state, now, keys).no_duplicates(),
        forall|k: Seq<char>| #[trigger]
            profile_keys(state, now, keys).contains(k) <==> keys.contains(k) && holds_profile(
                state,
                k,
                now,
            ),
    decreases keys.len(),
{
    let kept = profile_keys(state, now, keys);
    if keys.len() == 0 {
    } else {
        let front = keys.drop_last();
        let before = profile_keys(state, now, front);
        let key = keys.last();
        assert(front.no_duplicates()) by {
            assert forall|i: int, j: int| 0 <= i < front.len() && 0 <= j < front.len() && i != j implies front[i] != front[j] by {
                assert(keys[i] != keys[j]);
            }
        }
        lemma_profile_keys(state, now, front);
        assert(!front.contains(key)) by {
            if front.contains(key) {
                let i = choose|i: int| 0 <= i < front.len() && front[i] == key;
                assert(keys[i] == keys[keys.len() - 1]);
            }
        }
        assert forall|k: Seq<char>| #[trigger]
            kept.contains(k) <==> keys.contains(k) && holds_profile(state, k, now) by {
            if keys.contains(k) {
                let i = choose|i: int| 0 <= i < keys.len() && keys[i] == k;
                if i < keys.len() - 1 {
                    assert(front[i] == k);
                }
            }
            if front.contains(k) {
                let i = choose|i: int| 0 <= i < front.len() && front[i] == k;
                assert(keys[i] == k);
            }
            if before.contains(k) {
                let i = choose|i: int| 0 <= i < before.len() && before[i] == k;
                if kept.len() > before.len() {
                    assert(kept[i] == k);
                }
            }
            if kept.contains(k) && !before.contains(k) {
                let i = choose|i: int| 0 <= i < kept.len() && kept[i] == k;
                if i < before.len() {
                    assert(before[i] == k);
                }
                assert(k == key);
                assert(keys[keys.len() - 1] == k);
            }
            if k == key && holds_profile(state, k, now) {
                assert(kept[kept.len() - 1] == k);
            }
        }
        if holds_profile(state, key, now) {
            assert forall|i: int, j: int| 0 <= i < kept.len() && 0 <= j < kept.len() && i != j implies kept[i] != kept[j] by {
                if i < before.len() && j < before.len() {
                    assert(before[i] != before[j]);
                } else if i < before.len() {
                    assert(before.contains(before[i]));
                } else {
                    assert(before.contains(before[j]));
                }
            }
        }
    }
}

/// What a bulk fetch of the current generation yields when each value is what
/// its key holds: the profile of each key that holds one, in order, unless a
/// key holds bytes that are no record.
pub proof fn lemma_fetched_profiles(
    state: BackendState,
    now: u64,
    keys: Seq<Seq<char>>,
    values: Seq<RawValue>,
)
    requires
        keys.len() == values.len(),
        forall|i: int|
            0 <= i < keys.len() ==> (#[trigger] values[i]).reports(state.content(keys[i], now)),
    ensures
        match present_profiles(values) {
            Ok(ps) => {
                let kept = profile_keys(state, now, keys);
                &&& ps.len() == kept.len()
                &&& forall|j: int| 0 <= j < kept.len() ==> #[trigger] ps[j] == profile_at(state, kept[j])
                &&& forall|i: int| 0 <= i < keys.len() ==> !holds_garbage(state, #[trigger] keys[i], now)
            },
            Err(i) => 0 <= i < keys.len() && holds_garbage(state, keys[i], now) && read_value(
                Generation::Current,
                values[i],
            ) == Err::<Option<Option<PlayerInfoView>>, _>(
                unread_kind(state.entries[keys[i]].value),
            ),
        },
    decreases keys.len(),
{
    if keys.len() == 0 {
    } else {
        let front = keys.drop_last();
        let head = values.drop_last();
        assert forall|i: int| 0 <= i < front.len() implies (#[trigger] head[i]).reports(
            state.content(front[i], now),
        ) by {
            assert(head[i] == values[i]);
            assert(front[i] == keys[i]);
        }
        lemma_fetched_profiles(state, now, front, head);
        let last = values.len() - 1;
        assert(values[last].reports(state.content(keys[last], now)));
        match present_profiles(head) {
            Ok(before) => {
                match present_profiles(values) {
                    Ok(ps) => {
                        let kept = profile_keys(state, now, keys);
                        let kept_before = profile_keys(state, now, front);
                        assert forall|j: int| 0 <= j < kept.len() implies #[trigger] ps[j]
                            == profile_at(state, kept[j]) by {
                            if j < kept_before.len() {
                                assert(before[j] == profile_at(state, kept_before[j]));
                            }
                        }
                        assert forall|i: int| 0 <= i < keys.len() implies !holds_garbage(
                            state,
                            #[trigger] keys[i],
                            now,
                        ) by {
                            if i < last {
                                assert(front[i] == keys[i]);
                            }
                        }
                    },
                    Err(i) => {},
                }
            },
            Err(i) => {
                assert(front[i] == keys[i]);
                assert(head[i] == values[i]);
            },
        }
    }
}

/// The keys that hold a profile among two lists in a row are those of the
/// first list, then those of the second.
pub proof fn lemma_profile_keys_joined(
    state: BackendState,
    now: u64,
    a: Seq<Seq<char>>,
    b: Seq<Seq<char>>,
)
    ensures
        profile_keys(state, now, a + b) == profile_keys(state, now, a) + profile_keys(
            state,
            now,
            b,
        ),
    decreases b.len(),
{
    if b.len() == 0 {
        assert(a + b =~= a);
        assert(profile_keys(state, now, a) + profile_keys(state, now, b) =~= profile_keys(
            state,
            now,
            a,
        ));
    } else {
        assert((a + b).drop_last() =~= a + b.drop_last());
        assert((a + b).last() == b.last());
        lemma_profile_keys_joined(state, now, a, b.drop_last());
        let front = profile_keys(state, now, a) + profile_keys(state, now, b.drop_last());
        if holds_profile(state, b.last(), now) {
            assert(front.push(b.last()) =~= profile_keys(state, now, a) + profile_keys(
                state,
                now,
                b,
            ));
        }
    }
}

/// What an enumeration holds when its walk has come to the cursor `upto`.
/// `seen` lists, without repetition, the live keys that the walk has passed
/// and that lead to a player; none of them holds bytes that are no record,
/// and `known` holds the profiles under them, in order. `skipped` holds the
/// live keys of the generation that the walk has passed and that lead to no
/// player.
pub open spec fn walked(
    state: BackendState,
    now: u64,
    upto: int,
    seen: Seq<Seq<char>>,
    known: Seq<PlayerInfoView>,
    skipped: Seq<Seq<char>>,
) -> bool {
    &&& 0 <= upto <= state.journal.len()
    &&& seen.no_duplicates()
    &&& forall|k: Seq<char>| #[trigger]
        seen.contains(k) <==> state.passes(0, upto, k) && state.live(k, now) && key_id(
            Generation::Current,
            k,
        ) is Some
    &&& forall|k: Seq<char>| #[trigger]
        skipped.contains(k) <==> state.passes(0, upto, k) && state.live(k, now)
            && Generation::Current.prefix_text().is_prefix_of(k) && key_id(
            Generation::Current,
            k,
        ) is None
    &&& forall|i: int| 0 <= i < seen.len() ==> !holds_garbage(state, #[trigger] seen[i], now)
    &&& known.len() == profile_keys(state, now, seen).len()
    &&& forall|j: int|
        0 <= j < known.len() ==> #[trigger] known[j] == profile_at(
            state,
            profile_keys(state, now, seen)[j],
        )
}

/// A page takes the walk of an enumeration from one cursor to the next:
/// with the keys of the page that were not met before, the profiles under
/// them, and the keys of the page that lead to no player, the enumeration
/// holds what it is to hold at the next cursor.
pub proof fn lemma_walk_extends(
    state: BackendState,
    now: u64,
    from: int,
    upto: int,
    seen: Seq<Seq<char>>,
    known: Seq<PlayerInfoView>,
    skipped: Seq<Seq<char>>,
    page: Seq<Seq<char>>,
    found: Seq<PlayerInfoView>,
)
    requires
        walked(state, now, from, seen, known, skipped),
        from <= upto <= state.journal.len(),
        forall|k: Seq<char>| #[trigger]
            page.contains(k) <==> state.passes(from, upto, k) && state.live(k, now)
                && Generation::Current.prefix_text().is_prefix_of(k),
        ({
            let fresh = fresh_keys(Generation::Current, seen, page);
            &&& found.len() == profile_keys(state, now, fresh).len()
            &&& forall|j: int|
                0 <= j < found.len() ==> #[trigger] found[j] == profile_at(
                    state,
                    profile_keys(state, now, fresh)[j],
                )
            &&& forall|i: int| 0 <= i < fresh.len() ==> !holds_garbage(state, #[trigger] fresh[i], now)
        }),
    ensures
        walked(
            state,
            now,
            upto,
            seen + fresh_keys(Generation::Current, seen, page),
            known + found,
            skipped + ill_keyed(Generation::Current, page),
        ),
{
    let generation = Generation::Current;
    let fresh = fresh_keys(generation, seen, page);
    let aside = ill_keyed(generation, page);
    let met = seen + fresh;
    let passed = skipped + aside;
    lemma_fresh_keys(generation, seen, page);
    lemma_ill_keyed(generation, page);
    assert(apart(seen, fresh));
    lemma_joined(seen, fresh);
    lemma_joined(skipped, aside);
    lemma_profile_keys_joined(state, now, seen, fresh);
    assert forall|k: Seq<char>| #[trigger]
        met.contains(k) <==> state.passes(0, upto, k) && state.live(k, now) && key_id(
            generation,
            k,
        ) is Some by {
        state.lemma_passes(0, from, upto, k);
    }
    assert forall|k: Seq<char>| #[trigger]
        passed.contains(k) <==> state.passes(0, upto, k) && state.live(k, now)
            && generation.prefix_text().is_prefix_of(k) && key_id(generation, k) is None by {
        state.lemma_passes(0, from, upto, k);
    }
    assert forall|i: int| 0 <= i < met.len() implies !holds_garbage(
        state,
        #[trigger] met[i],
        now,
    ) by {
        if i < seen.len() {
            assert(met[i] == seen[i]);
        } else {
            assert(met[i] == fresh[i - seen.len()]);
        }
    }
    let all = known + found;
    let held = profile_keys(state, now, met);
    assert forall|j: int| 0 <= j < all.len() implies #[trigger] all[j] == profile_at(
        state,
        held[j],
    ) by {
        if j < known.len() {
            assert(all[j] == known[j]);
        } else {
            assert(all[j] == found[j - known.len()]);
        }
    }
}

/// What an enumeration holds when its walk is over: `known` lists the cached
/// profiles, none of the keys that lead to a player holds bytes that are no
/// record, and the walk has met a key exactly if the backend holds one of
/// the generation.
pub proof fn lemma_walk_over(
    state: BackendState,
    now: u64,
    seen: Seq<Seq<char>>,
    known: Seq<PlayerInfoView>,
    skipped: Seq<Seq<char>>,
)
    requires
        state.wf(),
        walked(state, now, state.journal.len() as int, seen, known, skipped),
    ensures
        enumerates_profiles(state, now, profile_keys(state, now, seen), known),
        !Storage::holds_unreadable(state, now),
        seen.len() == 0 && skipped.len() == 0 <==> !Storage::scan_finds(state, now),
{
    let generation = Generation::Current;
    let len = state.journal.len() as int;
    let held = profile_keys(state, now, seen);
    lemma_profile_keys(state, now, seen);
    assert forall|k: Seq<char>| #[trigger]
        held.contains(k) <==> key_id(generation, k) is Some && holds_profile(state, k, now) by {
        if key_id(generation, k) is Some && holds_profile(state, k, now) {
            state.lemma_passes_all(k);
        }
    }
    assert forall|k: Seq<char>| !(#[trigger] holds_garbage(state, k, now) && key_id(
        generation,
        k,
    ) is Some) by {
        if holds_garbage(state, k, now) && key_id(generation, k) is Some {
            state.lemma_passes_all(k);
            assert(seen.contains(k));
            let i = choose|i: int| 0 <= i < seen.len() && seen[i] == k;
            assert(!holds_garbage(state, seen[i], now));
        }
    }
    if seen.len() == 0 && skipped.len() == 0 {
        assert forall|k: Seq<char>| !(#[trigger] state.live(k, now)
            && generation.prefix_text().is_prefix_of(k)) by {
            if state.live(k, now) && generation.prefix_text().is_prefix_of(k) {
                state.lemma_passes_all(k);
                if key_id(generation, k) is Some {
                    assert(seen.contains(k));
                } else {
                    assert(skipped.contains(k));
                }
            }
        }
    } else if seen.len() > 0 {
        assert(seen.contains(seen[0]));
        assert(state.live(seen[0], now) && generation.prefix_text().is_prefix_of(seen[0]));
    } else {
        assert(skipped.contains(skipped[0]));
        assert(state.live(skipped[0], now) && generation.prefix_text().is_prefix_of(skipped[0]));
    }
}

impl Storage {
    /// Opening the store against a backend that answers ends well and changes
    /// nothing.
    pub proof fn theorem_connect(
        self,
        task: Task,
        action: Action,
        state: BackendState,
        now: u64,
        steps: nat,
        end: BackendState,
        result: Result<Outcome, StoreError>,
    )
        requires
            self.starts_connect(task, action),
            self.runs(task, action, state, now, steps, end, result),
        ensures
            result == Ok::<_, StoreError>(Outcome::Ready),
            end == state,
    {
        let (reply, next, following) = self.lemma_run_step(
            task,
            Command::Ping,
            state,
            now,
            steps,
            end,
            result,
        );
        self.lemma_run_end(
            next,
            following->Finish_0,
            state,
            now,
            (steps - 1) as nat,
            end,
            result,
        );
    }

    /// `has_player_info` answers whether the player's key of the current
    /// generation exists, and changes nothing.
    pub proof fn theorem_has_player_info(
        self,
        uuid: PlayerId,
        task: Task,
        action: Action,
        state: BackendState,
        now: u64,
        steps: nat,
        end: BackendState,
        result: Result<Outcome, StoreError>,
    )
        requires
            self.starts_has(uuid, task, action),
            self.runs(task, action, state, now, steps, end, result),
        ensures
            result == Ok::<_, StoreError>(
                Outcome::Has(state.live(key_text(Generation::Current, uuid), now)),
            ),
            end == state,
    {
        let cmd = action->Send_0;
        let (reply, next, following) = self.lemma_run_step(
            task,
            cmd,
            state,
            now,
            steps,
            end,
            result,
        );
        self.lemma_run_end(
            next,
            following->Finish_0,
            state,
            now,
            (steps - 1) as nat,
            end,
            result,
        );
    }

    /// Whether every key of the current generation holds a profile, as it
    /// does on a backend that only the cache writes to.
    pub open spec fn tidy(state: BackendState) -> bool {
        forall|k: Seq<char>|
            #![trigger state.entries[k]]
            state.entries.dom().contains(k) && Generation::Current.prefix_text().is_prefix_of(k)
                ==> parse_record(state.entries[k].value) matches Some(Some(_))
    }

    /// On a backend where every key of the current generation holds a
    /// profile, `has_player_info` says exactly whether a profile is cached for
    /// the player.
    pub proof fn law_has_means_profile(
        self,
        uuid: PlayerId,
        task: Task,
        action: Action,
        state: BackendState,
        now: u64,
        steps: nat,
        end: BackendState,
        result: Result<Outcome, StoreError>,
    )
        requires
            Self::tidy(state),
            self.starts_has(uuid, task, action),
            self.runs(task, action, state, now, steps, end, result),
        ensures
            result == Ok::<_, StoreError>(
                Outcome::Has(holds_profile(state, key_text(Generation::Current, uuid), now)),
            ),
    {
        self.theorem_has_player_info(uuid, task, action, state, now, steps, end, result);
        let key = key_text(Generation::Current, uuid);
        assert(Generation::Current.prefix_text().is_prefix_of(key));
        if state.live(key, now) {
            assert(parse_record(state.entries[key].value) matches Some(Some(_)));
        }
    }

    /// The writes of the cache keep the backend tidy: after a profile is
    /// stored or a player is marked as unknown, every key of the current
    /// generation still holds a profile. This is stated of profiles that are
    /// read back as they were written.
    pub proof fn lemma_tidy_kept(
        self,
        state: BackendState,
        uuid: PlayerId,
        player: Option<PlayerInfo>,
        now: u64,
    )
        requires
            Self::tidy(state),
            player matches Some(info) ==> reads_back(Some(info@)),
        ensures
            player matches Some(info) ==> Self::tidy(
                self.records_profile(state, uuid, enc_record(Some(info@)), now),
            ),
            player is None ==> Self::tidy(self.records_unknown(state, uuid, now)),
            Self::tidy(purged(state, now)),
    {
        match player {
            Some(info) => {
                let after = self.records_profile(state, uuid, enc_record(Some(info@)), now);
                assert forall|k: Seq<char>|
                    #![trigger after.entries[k]]
                    after.entries.dom().contains(k)
                        && Generation::Current.prefix_text().is_prefix_of(
                        k,
                    ) implies parse_record(after.entries[k].value) matches Some(Some(_)) by {
                    if k != key_text(Generation::Current, uuid) {
                        assert(after.entries[k] == state.entries[k]);
                    }
                }
            },
            None => {},
        }
    }

    /// `set_player_info` with a profile stores it under the player's key, as a
    /// present record that lapses the profile lifetime after `now`, takes the
    /// player out of the unknown-set, and changes nothing else. With no
    /// profile it marks the player as unknown until the marker lifetime after
    /// `now`, removes the player's key, and changes nothing else.
    pub proof fn theorem_set_player_info(
        self,
        uuid: PlayerId,
        player: Option<PlayerInfo>,
        task: Task,
        action: Action,
        state: BackendState,
        now: u64,
        steps: nat,
        end: BackendState,
        result: Result<Outcome, StoreError>,
    )
        requires
            self.starts_set(uuid, player, now, task, action),
            self.runs(task, action, state, now, steps, end, result),
        ensures
            result == Ok::<_, StoreError>(Outcome::Stored),
            end == match player {
                Some(info) => self.records_profile(state, uuid, enc_record(Some(info@)), now),
                None => self.records_unknown(state, uuid, now),
            },
    {
        let cmd = action->Send_0;
        let (reply, next, following) = self.lemma_run_step(
            task,
            cmd,
            state,
            now,
            steps,
            end,
            result,
        );
        self.lemma_run_end(
            next,
            following->Finish_0,
            state.after(cmd, now),
            now,
            (steps - 1) as nat,
            end,
            result,
        );
        match player {
            Some(info) => {
                self.lemma_stores(action, state, uuid, enc_record(Some(info@)), now);
            },
            None => {
                self.lemma_marks(action, state, uuid, now);
            },
        }
    }

    /// Whether the unknown-set holds a score for the player.
    pub open spec fn marked_unknown(state: BackendState, uuid: PlayerId) -> bool {
        state.score(UNKNOWN_SET_KEY@, hyphenated(uuid.0)) is Some
    }

    /// `get_player_info` hands back the profile that is stored under the
    /// player's key and changes nothing; a stored value that is no record
    /// fails the lookup. Where the key holds nothing, the lookup finds
    /// nothing, and the player is marked as unknown unless the unknown-set
    /// holds a score for the player already.
    pub proof fn theorem_get_player_info(
        self,
        uuid: PlayerId,
        task: Task,
        action: Action,
        state: BackendState,
        now: u64,
        steps: nat,
        end: BackendState,
        result: Result<Outcome, StoreError>,
    )
        requires
            self.starts_get(uuid, now, task, action),
            self.runs(task, action, state, now, steps, end, result),
        ensures
            match state.content(key_text(Generation::Current, uuid), now) {
                Some(bytes) => end == state && match parse_record(bytes) {
                    Some(Some(p)) => result matches Ok(Outcome::Info(Some(info))) && info@ == p,
                    Some(None) => result == Ok::<_, StoreError>(Outcome::Info(None)),
                    None => result matches Err(StoreError::Decode(e)) && e.kind == unread_kind(
                        bytes,
                    ),
                },
                None => result == Ok::<_, StoreError>(Outcome::Info(None)) && end == if Self::marked_unknown(
                    state,
                    uuid,
                ) {
                    state
                } else {
                    self.records_unknown(state, uuid, now)
                },
            },
    {
        let cmd = action->Send_0;
        let (reply, next, following) = self.lemma_run_step(
            task,
            cmd,
            state,
            now,
            steps,
            end,
            result,
        );
        let left = (steps - 1) as nat;
        match state.content(key_text(Generation::Current, uuid), now) {
            Some(bytes) => {
                self.lemma_run_end(next, following->Finish_0, state, now, left, end, result);
            },
            None => {
                let ask = following->Send_0;
                let (reply2, next2, following2) = self.lemma_run_step(
                    next,
                    ask,
                    state,
                    now,
                    left,
                    end,
                    result,
                );
                let left2 = (left - 1) as nat;
                if Self::marked_unknown(state, uuid) {
                    self.lemma_run_end(
                        next2,
                        following2->Finish_0,
                        state,
                        now,
                        left2,
                        end,
                        result,
                    );
                } else {
                    let mark = following2->Send_0;
                    let (reply3, next3, following3) = self.lemma_run_step(
                        next2,
                        mark,
                        state,
                        now,
                        left2,
                        end,
                        result,
                    );
                    self.lemma_run_end(
                        next3,
                        following3->Finish_0,
                        state.after(mark, now),
                        now,
                        (left2 - 1) as nat,
                        end,
                        result,
                    );
                    self.lemma_marks(following2, state, uuid, now);
                }
            },
        }
    }

    /// Whether the player bears a marker in the unknown-set that has not
    /// lapsed at the time `now`.
    pub open spec fn known_unknown(state: BackendState, uuid: PlayerId, now: u64) -> bool {
        state.score(UNKNOWN_SET_KEY@, hyphenated(uuid.0)) matches Some(s) && s > now
    }

    /// Whether a request has recorded and served the answer from upstream:
    /// it has stored and served a profile, marked an unknown player and
    /// served nothing, or, after a failed fetch, left the backend as it was.
    pub open spec fn recorded(
        self,
        state: BackendState,
        uuid: PlayerId,
        now: u64,
        answer: Upstream,
        end: BackendState,
        result: Result<Outcome, StoreError>,
    ) -> bool {
        match answer.verdict() {
            Some(Some(info)) => {
                &&& end == self.records_profile(state, uuid, enc_record(Some(info@)), now)
                &&& result matches Ok(Outcome::Info(Some(served)))
                &&& served@ == info@
            },
            Some(None) => {
                &&& end == self.records_unknown(state, uuid, now)
                &&& result == Ok::<_, StoreError>(Outcome::Info(None))
            },
            None => {
                &&& end == state
                &&& result == Ok::<_, StoreError>(Outcome::Unavailable)
            },
        }
    }

    /// What `request_player_info` does. A cached profile is served, a stored
    /// value that is no record fails the request, and a player whose marker
    /// has not lapsed is served as unknown; in all three cases nothing
    /// changes, and what upstream would say plays no part. In every other
    /// case upstream is asked, and its answer is recorded and served.
    pub proof fn theorem_request_player_info(
        self,
        uuid: PlayerId,
        task: Task,
        action: Action,
        state: BackendState,
        now: u64,
        steps: nat,
        end: BackendState,
        result: Result<Outcome, StoreError>,
    )
        requires
            self.starts_request(uuid, now, task, action),
            self.runs(task, action, state, now, steps, end, result),
        ensures
            match state.content(key_text(Generation::Current, uuid), now) {
                Some(bytes) => end == state && match parse_record(bytes) {
                    Some(Some(p)) => result matches Ok(Outcome::Info(Some(info))) && info@ == p,
                    Some(None) => result == Ok::<_, StoreError>(Outcome::Info(None)),
                    None => result matches Err(StoreError::Decode(e)) && e.kind == unread_kind(
                        bytes,
                    ),
                },
                None => if Self::known_unknown(state, uuid, now) {
                    end == state && result == Ok::<_, StoreError>(Outcome::Info(None))
                } else {
                    exists|answer: Upstream| #[trigger]
                        self.recorded(state, uuid, now, answer, end, result)
                },
            },
    {
        let cmd = action->Send_0;
        let (reply, next, following) = self.lemma_run_step(
            task,
            cmd,
            state,
            now,
            steps,
            end,
            result,
        );
        let left = (steps - 1) as nat;
        match state.content(key_text(Generation::Current, uuid), now) {
            Some(bytes) => {
                self.lemma_run_end(next, following->Finish_0, state, now, left, end, result);
            },
            None => {
                let ask = following->Send_0;
                let (reply2, next2, following2) = self.lemma_run_step(
                    next,
                    ask,
                    state,
                    now,
                    left,
                    end,
                    result,
                );
                let left2 = (left - 1) as nat;
                if Self::known_unknown(state, uuid, now) {
                    self.lemma_run_end(
                        next2,
                        following2->Finish_0,
                        state,
                        now,
                        left2,
                        end,
                        result,
                    );
                } else {
                    let (answer, next3, following3) = self.lemma_run_fetch(
                        next2,
                        uuid,
                        state,
                        now,
                        left2,
                        end,
                        result,
                    );
                    let left3 = (left2 - 1) as nat;
                    match answer.verdict() {
                        Some(record) => {
                            let write = following3->Send_0;
                            let (reply4, next4, following4) = self.lemma_run_step(
                                next3,
                                write,
                                state,
                                now,
                                left3,
                                end,
                                result,
                            );
                            self.lemma_run_end(
                                next4,
                                following4->Finish_0,
                                state.after(write, now),
                                now,
                                (left3 - 1) as nat,
                                end,
                                result,
                            );
                            match record {
                                Some(info) => {
                                    self.lemma_stores(
                                        following3,
                                        state,
                                        uuid,
                                        enc_record(Some(info@)),
                                        now,
                                    );
                                },
                                None => {
                                    self.lemma_marks(following3, state, uuid, now);
                                },
                            }
                        },
                        None => {
                            self.lemma_run_end(
                                next3,
                                following3->Finish_0,
                                state,
                                now,
                                left3,
                                end,
                                result,
                            );
                        },
                    }
                    assert(self.recorded(state, uuid, now, answer, end, result));
                }
            },
        }
    }

    /// The lookup protocol: check the cache, ask upstream on a miss, fill the
    /// cache. After a request that had to ask upstream, a later request for
    /// the same player is served from the cache: with the profile that
    /// upstream gave, for as long as the profile has not lapsed, or as
    /// unknown, for as long as the marker has not lapsed. It changes nothing,
    /// and what upstream would say then plays no part. A request whose fetch
    /// failed has recorded nothing. The law is stated of profiles that are
    /// read back as they were written.
    pub proof fn law_request_fills_the_cache(
        self,
        uuid: PlayerId,
        state: BackendState,
        now: u64,
        later: u64,
        first: (Task, Action, nat, BackendState, Result<Outcome, StoreError>),
        second: (Task, Action, nat, BackendState, Result<Outcome, StoreError>),
    )
        requires
            state.content(key_text(Generation::Current, uuid), now) is None,
            !Self::known_unknown(state, uuid, now),
            now <= later,
            self.starts_request(uuid, now, first.0, first.1),
            self.runs(first.0, first.1, state, now, first.2, first.3, first.4),
            self.starts_request(uuid, later, second.0, second.1),
            self.runs(second.0, second.1, first.3, later, second.2, second.3, second.4),
            first.4 matches Ok(Outcome::Info(Some(given))) ==> reads_back(Some(given@)),
        ensures
            match first.4 {
                Ok(Outcome::Info(Some(given))) => later < lapse(now, self.profile_ttl) ==> second.3
                    == first.3 && (second.4 matches Ok(Outcome::Info(Some(served))) && served@
                    == given@),
                Ok(Outcome::Info(None)) => later < lapse(now, self.unknown_ttl) ==> second.3
                    == first.3 && second.4 == Ok::<_, StoreError>(Outcome::Info(None)),
                Ok(Outcome::Unavailable) => first.3 == state,
                _ => false,
            },
    {
        self.theorem_request_player_info(
            uuid,
            first.0,
            first.1,
            state,
            now,
            first.2,
            first.3,
            first.4,
        );
        self.theorem_request_player_info(
            uuid,
            second.0,
            second.1,
            first.3,
            later,
            second.2,
            second.3,
            second.4,
        );
        let answer = choose|answer: Upstream| #[trigger]
            self.recorded(state, uuid, now, answer, first.3, first.4);
        match answer.verdict() {
            Some(Some(info)) => {
            },
            _ => {},
        }
    }

    /// Miss, then populate. A player of whom the backend holds nothing is not
    /// cached and is not found. Once a profile has been stored for the player,
    /// and for as long as it has not lapsed, the player is cached and the
    /// lookup hands back the profile that was stored, field for field. The
    /// law is stated of profiles that are read back as they were written.
    pub proof fn law_miss_then_populate(
        self,
        uuid: PlayerId,
        profile: PlayerInfo,
        fresh: BackendState,
        now: u64,
        later: u64,
        has: (Task, Action, nat, BackendState, Result<Outcome, StoreError>),
        get: (Task, Action, nat, BackendState, Result<Outcome, StoreError>),
        set: (Task, Action, nat, BackendState, Result<Outcome, StoreError>),
        has_again: (Task, Action, nat, BackendState, Result<Outcome, StoreError>),
        get_again: (Task, Action, nat, BackendState, Result<Outcome, StoreError>),
    )
        requires
            reads_back(Some(profile@)),
            !fresh.entries.dom().contains(key_text(Generation::Current, uuid)),
            now <= later < lapse(now, self.profile_ttl),
            self.starts_has(uuid, has.0, has.1),
            self.runs(has.0, has.1, fresh, now, has.2, has.3, has.4),
            self.starts_get(uuid, now, get.0, get.1),
            self.runs(get.0, get.1, has.3, now, get.2, get.3, get.4),
            self.starts_set(uuid, Some(profile), now, set.0, set.1),
            self.runs(set.0, set.1, get.3, now, set.2, set.3, set.4),
            self.starts_has(uuid, has_again.0, has_again.1),
            self.runs(has_again.0, has_again.1, set.3, later, has_again.2, has_again.3, has_again.4),
            self.starts_get(uuid, later, get_again.0, get_again.1),
            self.runs(
                get_again.0,
                get_again.1,
                has_again.3,
                later,
                get_again.2,
                get_again.3,
                get_again.4,
            ),
        ensures
            has.4 == Ok::<_, StoreError>(Outcome::Has(false)),
            get.4 == Ok::<_, StoreError>(Outcome::Info(None)),
            set.4 == Ok::<_, StoreError>(Outcome::Stored),
            has_again.4 == Ok::<_, StoreError>(Outcome::Has(true)),
            get_again.4 matches Ok(Outcome::Info(Some(found))) && found@ == profile@,
    {
        self.theorem_has_player_info(uuid, has.0, has.1, fresh, now, has.2, has.3, has.4);
        self.theorem_get_player_info(uuid, get.0, get.1, has.3, now, get.2, get.3, get.4);
        self.theorem_set_player_info(
            uuid,
            Some(profile),
            set.0,
            set.1,
            get.3,
            now,
            set.2,
            set.3,
            set.4,
        );
        self.theorem_has_player_info(
            uuid,
            has_again.0,
            has_again.1,
            set.3,
            later,
            has_again.2,
            has_again.3,
            has_again.4,
        );
        self.theorem_get_player_info(
            uuid,
            get_again.0,
            get_again.1,
            has_again.3,
            later,
            get_again.2,
            get_again.3,
            get_again.4,
        );
    }

    /// Marking a player as unknown twice in a row leaves the unknown-set with
    /// one member for the player, scored by the second call: the backend ends
    /// as if only the second call had been made.
    pub proof fn law_unknown_marking_idempotent(
        self,
        uuid: PlayerId,
        state: BackendState,
        first_at: u64,
        second_at: u64,
        first: (Task, Action, nat, BackendState, Result<Outcome, StoreError>),
        second: (Task, Action, nat, BackendState, Result<Outcome, StoreError>),
    )
        requires
            self.starts_set(uuid, None, first_at, first.0, first.1),
            self.runs(first.0, first.1, state, first_at, first.2, first.3, first.4),
            self.starts_set(uuid, None, second_at, second.0, second.1),
            self.runs(second.0, second.1, first.3, second_at, second.2, second.3, second.4),
        ensures
            second.3 == self.records_unknown(state, uuid, second_at),
            second.3.scores.dom() == first.3.scores.dom(),
            second.3.score(UNKNOWN_SET_KEY@, hyphenated(uuid.0)) == Some(
                lapse(second_at, self.unknown_ttl),
            ),
    {
        self.theorem_set_player_info(
            uuid,
            None,
            first.0,
            first.1,
            state,
            first_at,
            first.2,
            first.3,
            first.4,
        );
        self.theorem_set_player_info(
            uuid,
            None,
            second.0,
            second.1,
            first.3,
            second_at,
            second.2,
            second.3,
            second.4,
        );
        assert(second.3.scores =~= self.records_unknown(state, uuid, second_at).scores);
        assert(second.3.entries =~= self.records_unknown(state, uuid, second_at).entries);
        assert(second.3.scores.dom() =~= first.3.scores.dom());
    }

    /// Whether the player has at most one classification at the time `at`:
    /// not both a profile under the player's key and a marker in the
    /// unknown-set that has not lapsed.
    pub open spec fn classified_once(state: BackendState, uuid: PlayerId, at: u64) -> bool {
        !(state.live(key_text(Generation::Current, uuid), at) && Self::known_unknown(
            state,
            uuid,
            at,
        ))
    }

    /// Every change that the cache makes keeps the classifications apart.
    /// Recording a profile or recording "unknown" for a player leaves that
    /// player with at most one classification at every time, and removing
    /// the lapsed markers adds none; a player that had at most one
    /// classification before such a change has at most one after it.
    pub proof fn law_classifications_kept(
        self,
        state: BackendState,
        uuid: PlayerId,
        record: Seq<u8>,
        now: u64,
    )
        ensures
            forall|at: u64| #[trigger]
                Self::classified_once(self.records_profile(state, uuid, record, now), uuid, at),
            forall|at: u64| #[trigger]
                Self::classified_once(self.records_unknown(state, uuid, now), uuid, at),
            forall|other: PlayerId, at: u64|
                Self::classified_once(state, other, at) ==> #[trigger] Self::classified_once(
                    self.records_profile(state, uuid, record, now),
                    other,
                    at,
                ),
            forall|other: PlayerId, at: u64|
                Self::classified_once(state, other, at) ==> #[trigger] Self::classified_once(
                    self.records_unknown(state, uuid, now),
                    other,
                    at,
                ),
            forall|other: PlayerId, at: u64|
                Self::classified_once(state, other, at) ==> #[trigger] Self::classified_once(
                    purged(state, now),
                    other,
                    at,
                ),
    {
        let prefix = Generation::Current.prefix_text();
        assert forall|other: PlayerId|
            hyphenated(other.0) != hyphenated(uuid.0) implies #[trigger] key_text(
            Generation::Current,
            other,
        ) != key_text(Generation::Current, uuid) by {
            assert((prefix + hyphenated(other.0)).skip(prefix.len() as int) =~= hyphenated(
                other.0,
            ));
            assert((prefix + hyphenated(uuid.0)).skip(prefix.len() as int) =~= hyphenated(
                uuid.0,
            ));
        }
    }

    /// A write supersedes what was recorded before. After `set_player_info`
    /// with a profile, the player's key holds the profile and the player is
    /// no member of the unknown-set; after `set_player_info` with no profile,
    /// the player is marked and the player's key holds nothing. So the player
    /// has one classification from then on, whatever the backend held, and
    /// every other player that had at most one still has at most one.
    pub proof fn law_write_supersedes(
        self,
        uuid: PlayerId,
        player: Option<PlayerInfo>,
        task: Task,
        action: Action,
        state: BackendState,
        now: u64,
        steps: nat,
        end: BackendState,
        result: Result<Outcome, StoreError>,
    )
        requires
            self.starts_set(uuid, player, now, task, action),
            self.runs(task, action, state, now, steps, end, result),
        ensures
            result == Ok::<_, StoreError>(Outcome::Stored),
            match player {
                Some(info) => {
                    &&& end.entries.dom().contains(key_text(Generation::Current, uuid))
                    &&& end.entries[key_text(Generation::Current, uuid)] == (Entry {
                        value: enc_record(Some(info@)),
                        expires_at: lapse(now, self.profile_ttl),
                    })
                    &&& !Self::marked_unknown(end, uuid)
                },
                None => {
                    &&& !end.entries.dom().contains(key_text(Generation::Current, uuid))
                    &&& end.score(UNKNOWN_SET_KEY@, hyphenated(uuid.0)) == Some(
                        lapse(now, self.unknown_ttl),
                    )
                },
            },
            forall|at: u64| Self::classified_once(end, uuid, at),
            forall|other: PlayerId, at: u64|
                Self::classified_once(state, other, at) ==> #[trigger] Self::classified_once(
                    end,
                    other,
                    at,
                ),
    {
        self.theorem_set_player_info(uuid, player, task, action, state, now, steps, end, result);
        match player {
            Some(info) => {
                self.law_classifications_kept(state, uuid, enc_record(Some(info@)), now);
            },
            None => {
                self.law_classifications_kept(state, uuid, Seq::empty(), now);
            },
        }
    }

    /// A profile lapses with its lifetime. After a profile was stored at the
    /// time `now`, the player is cached at a later time exactly while less
    /// than the profile lifetime has gone by.
    pub proof fn law_ttl_expiry(
        self,
        uuid: PlayerId,
        profile: PlayerInfo,
        state: BackendState,
        now: u64,
        later: u64,
        set: (Task, Action, nat, BackendState, Result<Outcome, StoreError>),
        has: (Task, Action, nat, BackendState, Result<Outcome, StoreError>),
    )
        requires
            now <= later,
            self.starts_set(uuid, Some(profile), now, set.0, set.1),
            self.runs(set.0, set.1, state, now, set.2, set.3, set.4),
            self.starts_has(uuid, has.0, has.1),
            self.runs(has.0, has.1, set.3, later, has.2, has.3, has.4),
        ensures
            has.4 == Ok::<_, StoreError>(Outcome::Has(later < lapse(now, self.profile_ttl))),
            later - now >= self.profile_ttl ==> has.4 == Ok::<_, StoreError>(Outcome::Has(false)),
    {
        self.theorem_set_player_info(
            uuid,
            Some(profile),
            set.0,
            set.1,
            state,
            now,
            set.2,
            set.3,
            set.4,
        );
        self.theorem_has_player_info(uuid, has.0, has.1, set.3, later, has.2, has.3, has.4);
    }

    /// Whether the backend holds a live key of the current generation, so that
    /// a scan finds something.
    pub open spec fn scan_finds(state: BackendState, now: u64) -> bool {
        exists|k: Seq<char>| #[trigger]
            state.live(k, now) && Generation::Current.prefix_text().is_prefix_of(k)
    }

    /// Whether some live key of the current generation that leads to a player
    /// holds bytes that are no record.
    pub open spec fn holds_unreadable(state: BackendState, now: u64) -> bool {
        exists|k: Seq<char>| #[trigger]
            holds_garbage(state, k, now) && key_id(Generation::Current, k) is Some
    }

    /// What an enumeration has achieved when it ends with `result` and leaves
    /// the backend as `end`.
    ///
    /// Where the backend holds no key of the current generation, the result
    /// is empty and nothing has changed. Else, where a key that leads to a
    /// player holds bytes that are no record, the enumeration has failed and
    /// nothing has changed. Else the result lists every cached profile once,
    /// and the players named by the members of the unknown-set that have not
    /// lapsed; the lapsed members are gone from the backend, and nothing else
    /// has changed. A key that leads to no player neither shows in the result
    /// nor fails the enumeration.
    pub open spec fn enumerated(
        state: BackendState,
        now: u64,
        end: BackendState,
        result: Result<Outcome, StoreError>,
    ) -> bool {
        if !Self::scan_finds(state, now) {
            end == state && (result matches Ok(Outcome::Players(all)) && all.is_empty())
        } else {
            match result {
                Ok(Outcome::Players(all)) => {
                    &&& !Self::holds_unreadable(state, now)
                    &&& end == purged(state, now)
                    &&& exists|keys: Seq<Seq<char>>| #[trigger]
                        enumerates_profiles(state, now, keys, infos_view(all.known@))
                    &&& exists|members: Seq<Seq<char>>| #[trigger]
                        enumerates_unknown(state, now, members, all.unknown@)
                },
                Err(StoreError::Decode(e)) => {
                    &&& Self::holds_unreadable(state, now)
                    &&& end == state
                    &&& e.kind != DecodeErrorKind::UnexpectedType
                },
                _ => false,
            }
        }
    }

    /// What `get_all_players` does: on a backend whose walks pass every key,
    /// every run of it is an enumeration in the sense of
    /// [`Storage::enumerated`], however the walk is cut into pages.
    pub proof fn theorem_get_all_players(
        self,
        task: Task,
        action: Action,
        state: BackendState,
        now: u64,
        steps: nat,
        end: BackendState,
        result: Result<Outcome, StoreError>,
    )
        requires
            state.wf(),
            self.starts_all(now, task, action),
            self.runs(task, action, state, now, steps, end, result),
        ensures
            Self::enumerated(state, now, end, result),
    {
        let seen = texts(task->Scan_seen@);
        let known = infos_view(task->Scan_known@);
        let skipped = texts(task->Scan_skipped@);
        assert(walked(state, now, 0, seen, known, skipped)) by {
            assert(profile_keys(state, now, seen) =~= Seq::empty());
            assert forall|k: Seq<char>| !state.passes(0, 0, k) by {}
        }
        self.lemma_walk(task, action, 0, state, now, steps, end, result);
    }

    /// An enumeration that waits for a page ends as an enumeration is to end.
    proof fn lemma_walk(
        self,
        task: Task,
        action: Action,
        cursor: u64,
        state: BackendState,
        now: u64,
        steps: nat,
        end: BackendState,
        result: Result<Outcome, StoreError>,
    )
        requires
            state.wf(),
            task is Scan,
            task->Scan_now == now,
            walked(
                state,
                now,
                cursor as int,
                texts(task->Scan_seen@),
                infos_view(task->Scan_known@),
                texts(task->Scan_skipped@),
            ),
            action.scans(Generation::Current, cursor),
            self.runs(task, action, state, now, steps, end, result),
        ensures
            Self::enumerated(state, now, end, result),
        decreases steps, 0nat,
    {
        let generation = Generation::Current;
        let seen = texts(task->Scan_seen@);
        let known = infos_view(task->Scan_known@);
        let skipped = texts(task->Scan_skipped@);
        let scan = action->Send_0;
        let (reply, next, following) = self.lemma_run_step(
            task,
            scan,
            state,
            now,
            steps,
            end,
            result,
        );
        let left = (steps - 1) as nat;
        let onward = reply->Page_cursor;
        let page = texts(reply->Page_keys@);
        let upto = if onward == 0 {
            state.journal.len() as int
        } else {
            onward as int
        };
        let fresh = fresh_keys(generation, seen, page);
        let passed = skipped + ill_keyed(generation, page);
        lemma_fresh_keys(generation, seen, page);
        if fresh.len() > 0 {
            let fetch = following->Send_0;
            let fetched = fetch->MultiGet_keys;
            let (reply2, next2, following2) = self.lemma_run_step(
                next,
                fetch,
                state,
                now,
                left,
                end,
                result,
            );
            let left2 = (left - 1) as nat;
            let vs = reply2->Values_0;
            assert forall|i: int| 0 <= i < fresh.len() implies (#[trigger] vs@[i]).reports(
                state.content(fresh[i], now),
            ) by {
                assert(fresh[i] == fetched@[i]@);
            }
            lemma_fetched_profiles(state, now, fresh, vs@);
            match present_profiles(vs@) {
                Ok(found) => {
                    lemma_walk_extends(state, now, cursor as int, upto, seen, known, skipped, page, found);
                    self.lemma_goes_on(
                        onward,
                        seen + fresh,
                        known + found,
                        passed,
                        next2,
                        following2,
                        state,
                        now,
                        left2,
                        end,
                        result,
                    );
                },
                Err(i) => {
                    self.lemma_run_end(
                        next2,
                        following2->Finish_0,
                        state,
                        now,
                        left2,
                        end,
                        result,
                    );
                    assert(fresh.contains(fresh[i]));
                    assert(holds_garbage(state, fresh[i], now) && key_id(generation, fresh[i]) is Some);
                    assert(state.live(fresh[i], now) && generation.prefix_text().is_prefix_of(
                        fresh[i],
                    ));
                },
            }
        } else {
            assert(profile_keys(state, now, fresh) =~= Seq::empty());
            lemma_walk_extends(
                state,
                now,
                cursor as int,
                upto,
                seen,
                known,
                skipped,
                page,
                Seq::empty(),
            );
            assert(seen + fresh =~= seen);
            assert(known + Seq::empty() =~= known);
            self.lemma_goes_on(
                onward,
                seen,
                known,
                passed,
                next,
                following,
                state,
                now,
                left,
                end,
                result,
            );
        }
    }

    /// An enumeration that has dealt with a page ends as an enumeration is
    /// to end.
    proof fn lemma_goes_on(
        self,
        cursor: u64,
        seen: Seq<Seq<char>>,
        known: Seq<PlayerInfoView>,
        skipped: Seq<Seq<char>>,
        task: Task,
        action: Action,
        state: BackendState,
        now: u64,
        steps: nat,
        end: BackendState,
        result: Result<Outcome, StoreError>,
    )
        requires
            state.wf(),
            walked(
                state,
                now,
                if cursor == 0 {
                    state.journal.len() as int
                } else {
                    cursor as int
                },
                seen,
                known,
                skipped,
            ),
            self.goes_on(now, cursor, seen, known, skipped, task, action),
            self.runs(task, action, state, now, steps, end, result),
        ensures
            Self::enumerated(state, now, end, result),
        decreases steps, 1nat,
    {
        if cursor != 0 {
            self.lemma_walk(task, action, cursor, state, now, steps, end, result);
        } else {
            lemma_walk_over(state, now, seen, known, skipped);
            if seen.len() == 0 && skipped.len() == 0 {
                self.lemma_run_end(task, action->Finish_0, state, now, steps, end, result);
            } else {
                self.lemma_members_and_purge(task, action, state, now, steps, end, result);
                let all = result->Ok_0->Players_0;
                assert(enumerates_profiles(
                    state,
                    now,
                    profile_keys(state, now, seen),
                    infos_view(all.known@),
                ));
            }
        }
    }

    /// The second half of an enumeration: the unknown-set is read, then its
    /// lapsed members are removed.
    proof fn lemma_members_and_purge(
        self,
        task: Task,
        action: Action,
        state: BackendState,
        now: u64,
        steps: nat,
        end: BackendState,
        result: Result<Outcome, StoreError>,
    )
        requires
            task is Members,
            task->Members_now == now,
            action.asks_members(now),
            self.runs(task, action, state, now, steps, end, result),
        ensures
            end == purged(state, now),
            (result matches Ok(Outcome::Players(all)) && all.known == task->Members_known && (
            exists|members: Seq<Seq<char>>| #[trigger]
                enumerates_unknown(state, now, members, all.unknown@))),
    {
        let ask = action->Send_0;
        let (reply, next, following) = self.lemma_run_step(
            task,
            ask,
            state,
            now,
            steps,
            end,
            result,
        );
        let left = (steps - 1) as nat;
        let ms = reply->Members_0;
        let purge = following->Send_0;
        let (reply2, next2, following2) = self.lemma_run_step(
            next,
            purge,
            state,
            now,
            left,
            end,
            result,
        );
        self.lemma_run_end(
            next2,
            following2->Finish_0,
            state.after(purge, now),
            now,
            (left - 1) as nat,
            end,
            result,
        );
        let all = result->Ok_0->Players_0;
        assert(enumerates_unknown(state, now, texts(ms@), all.unknown@));
        assert(end.scores =~= purged(state, now).scores);
    }

    /// Bulk enumeration. On a backend that holds a key of the current
    /// generation and where every stored value reads, `get_all_players` hands
    /// back every cached profile exactly once, as it was stored, and exactly
    /// the players whose marker in the unknown-set has not lapsed. Afterwards
    /// no lapsed marker is left in the unknown-set, and nothing else has
    /// changed.
    pub proof fn law_bulk_enumeration(
        self,
        task: Task,
        action: Action,
        state: BackendState,
        now: u64,
        steps: nat,
        end: BackendState,
        result: Result<Outcome, StoreError>,
    )
        requires
            state.wf(),
            Self::scan_finds(state, now),
            !Self::holds_unreadable(state, now),
            self.starts_all(now, task, action),
            self.runs(task, action, state, now, steps, end, result),
        ensures
            result matches Ok(Outcome::Players(all)) && (exists|keys: Seq<Seq<char>>| #[trigger]
                enumerates_profiles(state, now, keys, infos_view(all.known@))) && (exists|
                members: Seq<Seq<char>>,
            | #[trigger]
                enumerates_unknown(state, now, members, all.unknown@)),
            end.entries == state.entries,
            forall|m: Seq<char>|
                match #[trigger] state.score(UNKNOWN_SET_KEY@, m) {
                    Some(s) => end.score(UNKNOWN_SET_KEY@, m) == if s > now {
                        Some(s)
                    } else {
                        None
                    },
                    None => end.score(UNKNOWN_SET_KEY@, m) is None,
                },
    {
        self.theorem_get_all_players(task, action, state, now, steps, end, result);
    }

    /// Empty input, first half. Where the backend holds no key of the current
    /// generation, `get_all_players` hands back empty lists, fails in no way,
    /// and changes nothing: the unknown-set is neither read nor purged.
    pub proof fn law_empty_enumeration(
        self,
        task: Task,
        action: Action,
        state: BackendState,
        now: u64,
        steps: nat,
        end: BackendState,
        result: Result<Outcome, StoreError>,
    )
        requires
            state.wf(),
            !Self::scan_finds(state, now),
            self.starts_all(now, task, action),
            self.runs(task, action, state, now, steps, end, result),
        ensures
            result matches Ok(Outcome::Players(all)) && all.is_empty(),
            end == state,
    {
        self.theorem_get_all_players(task, action, state, now, steps, end, result);
    }

    /// An empty walk ends the enumeration at once: when the first page is the
    /// last one and holds no key, the enumeration is over with empty lists,
    /// and no further command is sent.
    pub proof fn law_empty_walk_ends_at_once(
        self,
        now: u64,
        task: Task,
        action: Action,
        keys: Vec<String>,
        next: Task,
        following: Action,
    )
        requires
            self.starts_all(now, task, action),
            keys@.len() == 0,
            self.resumes(task, Reply::Page { cursor: 0, keys }, next, following),
        ensures
            following matches Action::Finish(Ok(Outcome::Players(all))) && all.is_empty(),
    {
        let seen = texts(task->Scan_seen@);
        let skipped = texts(task->Scan_skipped@);
        assert(fresh_keys(Generation::Current, seen, texts(keys@)) =~= Seq::empty());
        assert(skipped + ill_keyed(Generation::Current, texts(keys@)) =~= Seq::empty());
    }

    /// Malformed keys are skipped. A key of the current generation that leads
    /// to no player does not fail the enumeration, whatever it holds, and
    /// shows in no list of profiles that the enumeration hands back.
    pub proof fn law_malformed_key_skipped(
        self,
        bad: Seq<char>,
        task: Task,
        action: Action,
        state: BackendState,
        now: u64,
        steps: nat,
        end: BackendState,
        result: Result<Outcome, StoreError>,
    )
        requires
            state.wf(),
            state.live(bad, now),
            Generation::Current.prefix_text().is_prefix_of(bad),
            key_id(Generation::Current, bad) is None,
            !Self::holds_unreadable(state, now),
            self.starts_all(now, task, action),
            self.runs(task, action, state, now, steps, end, result),
        ensures
            result matches Ok(Outcome::Players(all)) && (exists|keys: Seq<Seq<char>>| #[trigger]
                enumerates_profiles(state, now, keys, infos_view(all.known@)) && !keys.contains(
                    bad,
                )),
    {
        self.theorem_get_all_players(task, action, state, now, steps, end, result);
        let all = result->Ok_0->Players_0;
        let keys = choose|keys: Seq<Seq<char>>| #[trigger]
            enumerates_profiles(state, now, keys, infos_view(all.known@));
        assert(enumerates_profiles(state, now, keys, infos_view(all.known@)) && !keys.contains(
            bad,
        ));
    }

    /// Malformed keys are skipped page by page: of the keys of a page, the
    /// ones that lead to no player are set aside, the ones that are fetched
    /// lead to a player, and no page takes the enumeration into a failure.
    pub proof fn law_page_sets_malformed_aside(
        self,
        now: u64,
        seen: Vec<String>,
        known: Vec<PlayerInfo>,
        skipped: Vec<String>,
        cursor: u64,
        keys: Vec<String>,
        next: Task,
        action: Action,
    )
        requires
            self.resumes(
                Task::Scan { now, seen, known, skipped },
                Reply::Page { cursor, keys },
                next,
                action,
            ),
        ensures
            !(action matches Action::Finish(Err(_))),
            action matches Action::Send(Command::MultiGet { keys: fetched }) ==> forall|
                k: Seq<char>,
            | #[trigger]
                texts(fetched@).contains(k) ==> texts(keys@).contains(k) && key_id(
                    Generation::Current,
                    k,
                ) is Some,
            match next {
                Task::Fetch { skipped: aside, .. } | Task::Scan { skipped: aside, .. } | Task::Members {
                    skipped: aside,
                    ..
                } => forall|k: Seq<char>| #[trigger]
                    texts(aside@).contains(k) <==> texts(skipped@).contains(k) || (texts(
                        keys@,
                    ).contains(k) && key_id(Generation::Current, k) is None),
                _ => true,
            },
    {
        lemma_fresh_keys(Generation::Current, texts(seen@), texts(keys@));
        lemma_ill_keyed(Generation::Current, texts(keys@));
        lemma_joined(texts(skipped@), ill_keyed(Generation::Current, texts(keys@)));
    }
}

} // verus!
