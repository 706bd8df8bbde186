//! The player cache store: the lookup protocol in front of the upstream
//! profile service.
//!
//! Every operation is a [`Task`]: it starts by handing out a command for the
//! backend, and each reply moves it on, to another command or to its result.
//! The caller runs the loop:
//!
//! 1. start an operation and get a task and an [`Action`];
//! 2. while the action is [`Action::Send`], perform the command and hand the
//!    reply to [`Storage::resume`]; where it is [`Action::Fetch`], ask
//!    upstream and hand the answer to [`Storage::fetched`];
//! 3. the action [`Action::Finish`] carries the result.
//!
//! The operations are the four of the store, [`Storage::has_player_info`],
//! [`Storage::get_player_info`], [`Storage::set_player_info`] and
//! [`Storage::get_all_players`]; [`Storage::connect`], which opens it; and
//! [`Storage::request_player_info`], the protocol of a route that serves a
//! player: check the cache, ask upstream on a miss, fill the cache. Only the
//! last one asks upstream.
//!
//! Times are seconds since the epoch, read by the caller.

use vstd::prelude::*;
use vstd::string::*;
use crate::backend::{texts, Command, Reply, Write};
use crate::codec::{
    decode_value, enc_record, encode_profile, read_value, DecodeError,
    DecodeErrorKind, Generation, OptionalPlayerInfo, RawValue,
};
use crate::ident::{hyphenated, PlayerId};
use crate::keys::{expire_time, key_text, lapse, profile_key, scan_prefix, UNKNOWN_SET_KEY};
use crate::scan::{
    collect_profiles, copy_texts, fresh_keys, ill_keyed, member_ids, present_profiles,
    split_keys, split_members, unreadable_members,
};
use crate::tiers::{infos_view, PlayerInfo, PlayerInfoView};

verus! {

/// The cache store. It holds no connection, only its policy: how long a
/// profile is kept, and how long a player stays marked as unknown.
#[derive(Clone, Copy, Debug, PartialEq, Eq, Structural)]
pub struct Storage {
    /// The lifetime of a stored profile, in seconds.
    pub profile_ttl: u64,
    /// The lifetime of an "unknown" marker, in seconds.
    pub unknown_ttl: u64,
}

/// Everything the cache knows, as [`Storage::get_all_players`] reports it.
#[derive(Clone, Debug, PartialEq, Eq)]
pub struct AllPlayers {
    /// The cached profiles.
    pub known: Vec<PlayerInfo>,
    /// The players that are marked as unknown and whose marker has not lapsed.
    pub unknown: Vec<PlayerId>,
    /// The keys and members that name no player. They were passed over; the
    /// caller may want to log them.
    pub skipped: Vec<String>,
}

/// What a migration did.
#[derive(Clone, Debug, PartialEq, Eq)]
pub struct MigrationReport {
    /// How many profiles were written under the current scheme.
    pub known: usize,
    /// How many players were added to the unknown-set.
    pub unknown: usize,
    /// The legacy keys that name no player and were passed over.
    pub skipped: Vec<String>,
}

/// The result of an operation.
#[derive(Clone, Debug, PartialEq, Eq)]
pub enum Outcome {
    /// The backend is there.
    Ready,
    /// Whether a profile is cached.
    Has(bool),
    /// The cached profile, if there is one.
    Info(Option<PlayerInfo>),
    /// Upstream could not be asked, and the cache holds nothing for the
    /// player.
    Unavailable,
    /// The write was carried out.
    Stored,
    /// Everything the cache knows.
    Players(AllPlayers),
    /// The legacy entries were rewritten under the current scheme.
    Migrated(MigrationReport),
    /// The legacy namespace is empty; nothing was written.
    NothingToMigrate,
}

/// Why an operation failed.
#[derive(Clone, Debug, PartialEq, Eq)]
pub enum StoreError {
    /// The backend could not be reached when the store was opened; the text
    /// is the backend's. There is no store then: nothing is retried, and no
    /// operation is to be started.
    Unreachable(String),
    /// The backend reported a failure in the course of an operation; the text
    /// is the backend's. The operation is not retried.
    Backend(String),
    /// A stored value could not be read.
    Decode(DecodeError),
    /// The reply is not an answer to the command that was sent.
    UnexpectedReply,
}

/// What a fetch from the upstream profile service yielded.
#[derive(Clone, Debug, PartialEq, Eq)]
pub enum Upstream {
    /// Upstream has a profile for the player.
    Found(PlayerInfo),
    /// Upstream says that there is no such player.
    NotFound,
    /// The fetch failed, or what came back could not be read.
    Failed,
}

/// What the caller is to do next.
#[derive(Debug, PartialEq, Eq)]
pub enum Action {
    /// Perform the command and hand the reply to [`Storage::resume`].
    Send(Command),
    /// Ask the upstream profile service for the player and hand what comes
    /// back to [`Storage::fetched`].
    Fetch(PlayerId),
    /// The operation is over; this is its result.
    Finish(Result<Outcome, StoreError>),
}

/// An operation under way: what it waits for, and what it has gathered.
#[derive(Clone, Debug, PartialEq, Eq)]
pub enum Task {
    /// Waits to hear from the backend at all.
    Probe,
    /// Waits to hear whether the profile key exists.
    Exists,
    /// Waits for a write to be acknowledged.
    Store,
    /// Waits for the value under a player's profile key.
    Lookup { id: PlayerId, now: u64 },
    /// The profile is missing; waits for the player's score in the unknown-set.
    LookupScore { id: PlayerId, now: u64 },
    /// The player was just marked as unknown; waits for the acknowledgement.
    LookupMark,
    /// A request for a player waits for the value under the player's key.
    Resolve { id: PlayerId, now: u64 },
    /// The cache holds no profile; the request waits for the player's score
    /// in the unknown-set.
    ResolveScore { id: PlayerId, now: u64 },
    /// The cache knows nothing of the player; the request waits for what
    /// upstream says.
    ResolveFetch { id: PlayerId, now: u64 },
    /// What upstream said is being recorded; the request waits for the
    /// acknowledgement and then serves `profile`.
    ResolveStore { profile: Option<PlayerInfo> },
    /// An enumeration waits for the next page of keys of the current
    /// generation. It has met the keys in `seen`, found the profiles in
    /// `known` under them, and passed over the keys in `skipped`.
    Scan { now: u64, seen: Vec<String>, known: Vec<PlayerInfo>, skipped: Vec<String> },
    /// An enumeration waits for the values of the `count` keys that it met
    /// for the first time in the last page; `next` is the cursor to go on
    /// from.
    Fetch {
        now: u64,
        next: u64,
        count: usize,
        seen: Vec<String>,
        known: Vec<PlayerInfo>,
        skipped: Vec<String>,
    },
    /// Waits for the members of the unknown-set that have not lapsed.
    Members { known: Vec<PlayerInfo>, skipped: Vec<String>, now: u64 },
    /// Waits for the lapsed members to be removed.
    Purge { found: AllPlayers },
    /// A migration waits for the next page of keys of the legacy generation.
    /// It has met the keys in `seen`, found the profiles in `known` and the
    /// players without a profile in `unknown` under them, and passed over the
    /// keys in `skipped`.
    MigrateScan {
        now: u64,
        seen: Vec<String>,
        known: Vec<PlayerInfo>,
        unknown: Vec<PlayerId>,
        skipped: Vec<String>,
    },
    /// A migration waits for the values of the keys that it met for the first
    /// time in the last page; `ids` holds the player of each, and `next` is
    /// the cursor to go on from.
    MigrateFetch {
        now: u64,
        next: u64,
        ids: Vec<PlayerId>,
        seen: Vec<String>,
        known: Vec<PlayerInfo>,
        unknown: Vec<PlayerId>,
        skipped: Vec<String>,
    },
    /// A migration waits for its batch of writes to be acknowledged.
    MigrateWrite { report: MigrationReport },
    /// The operation is over.
    Finished,
}

impl Task {
    /// How far the task is from its end, pages of a walk not counted: every
    /// reply takes the task to one of a lower rank, or to one that waits for
    /// a further page.
    pub open spec fn rank(self) -> nat {
        match self {
            Task::Finished => 0,
            Task::Probe | Task::Exists | Task::Store | Task::LookupMark | Task::Purge { .. } | Task::MigrateWrite {
                ..
            } | Task::ResolveStore { .. } => 1,
            Task::LookupScore { .. } | Task::Members { .. } | Task::ResolveFetch { .. } => 2,
            Task::Lookup { .. } | Task::Scan { .. } | Task::MigrateScan { .. } | Task::ResolveScore {
                ..
            } => 3,
            Task::Fetch { .. } | Task::MigrateFetch { .. } | Task::Resolve { .. } => 4,
        }
    }
}

impl Upstream {
    /// What the cache is to record of an answer from upstream. A profile that
    /// holds a ranking is recorded as it is. A player that upstream does not
    /// know is recorded as unknown, and so is a profile without any ranking:
    /// upstream hands out such a profile for a name it has never ranked.
    /// A failed fetch says nothing of the player and is not recorded.
    pub open spec fn verdict(self) -> Option<Option<PlayerInfo>> {
        match self {
            Upstream::Found(info) => if info.rankings@.len() > 0 {
                Some(Some(info))
            } else {
                Some(None)
            },
            Upstream::NotFound => Some(None),
            Upstream::Failed => None,
        }
    }

    /// What the cache is to record of an answer from upstream: `Some` with
    /// the argument for [`Storage::set_player_info`], or `None` where nothing
    /// is to be recorded.
    pub fn classify(self) -> (r: Option<Option<PlayerInfo>>)
        ensures
            r == self.verdict(),
    {
        match self {
            Upstream::Found(info) => if info.rankings.len() > 0 {
                Some(Some(info))
            } else {
                Some(None)
            },
            Upstream::NotFound => Some(None),
            Upstream::Failed => None,
        }
    }
}

impl AllPlayers {
    /// A report of nothing at all.
    pub open spec fn is_empty(self) -> bool {
        self.known@.len() == 0 && self.unknown@.len() == 0 && self.skipped@.len() == 0
    }
}

impl Action {
    /// Whether this action asks for the members of the unknown-set whose
    /// score is greater than `above`.
    pub open spec fn asks_members(self, above: u64) -> bool {
        self matches Action::Send(Command::SortedSetRangeByScore { set, above: a }) && set@
            == UNKNOWN_SET_KEY@ && a == above
    }

    /// Whether this action asks for the page at `cursor` of a walk through
    /// the keys of a generation.
    pub open spec fn scans(self, generation: Generation, cursor: u64) -> bool {
        self matches Action::Send(Command::ScanMatch { prefix, cursor: c }) && prefix@
            == generation.prefix_text() && c == cursor
    }

    /// Whether this action marks a player as unknown until `score`: one
    /// batch that puts the player into the unknown-set and removes the
    /// player's key, so that no profile is left beside the marker.
    pub open spec fn marks(self, id: PlayerId, score: u64) -> bool {
        &&& self matches Action::Send(Command::Pipeline(ws))
        &&& ws@.len() == 2
        &&& ws@[0] matches Write::SortedSetAdd { set, member, score: s }
        &&& set@ == UNKNOWN_SET_KEY@
        &&& member@ == hyphenated(id.0)
        &&& s == score
        &&& ws@[1] matches Write::Delete { key }
        &&& key@ == key_text(Generation::Current, id)
    }

    /// Whether this action stores a record under a player's key for `ttl`
    /// seconds: one batch that puts the value and takes the player out of
    /// the unknown-set, so that no marker is left beside the profile.
    pub open spec fn stores(self, id: PlayerId, record: Seq<u8>, ttl: u64) -> bool {
        &&& self matches Action::Send(Command::Pipeline(ws))
        &&& ws@.len() == 2
        &&& ws@[0] matches Write::Put { key, value, ttl: t }
        &&& key@ == key_text(Generation::Current, id)
        &&& value@ == record
        &&& t == ttl
        &&& ws@[1] matches Write::SortedSetRemove { set, member }
        &&& set@ == UNKNOWN_SET_KEY@
        &&& member@ == hyphenated(id.0)
    }

    /// Whether this action ends the operation because the reply was no
    /// answer to the command.
    pub open spec fn rejects(self) -> bool {
        self == Action::Finish(Err(StoreError::UnexpectedReply))
    }

    /// Whether this action ends the operation because a value could not be
    /// read.
    pub open spec fn fails_on(self, kind: DecodeErrorKind, payload: RawValue) -> bool {
        self matches Action::Finish(Err(StoreError::Decode(e))) && e.kind == kind && e.payload
            == payload
    }
}

impl Storage {
    /// A store that keeps profiles and "unknown" markers for `ttl` seconds.
    pub fn new(ttl: u64) -> (r: Storage)
        ensures
            r == (Storage { profile_ttl: ttl, unknown_ttl: ttl }),
    {
        Storage { profile_ttl: ttl, unknown_ttl: ttl }
    }

    /// How opening the store starts: by asking whether the backend is there.
    pub open spec fn starts_connect(self, task: Task, action: Action) -> bool {
        task == Task::Probe && action == Action::Send(Command::Ping)
    }

    /// How "is this player's profile cached?" starts: by asking whether the
    /// player's key of the current generation exists.
    pub open spec fn starts_has(self, uuid: PlayerId, task: Task, action: Action) -> bool {
        &&& task == Task::Exists
        &&& action matches Action::Send(Command::Exists { key })
        &&& key@ == key_text(Generation::Current, uuid)
    }

    /// How a lookup starts: by asking for the value under the player's key.
    pub open spec fn starts_get(self, uuid: PlayerId, now: u64, task: Task, action: Action) -> bool {
        &&& task == Task::Lookup { id: uuid, now }
        &&& action matches Action::Send(Command::Get { key })
        &&& key@ == key_text(Generation::Current, uuid)
    }

    /// How a store starts: with the one batch that does it. A profile goes
    /// under the player's key, encoded as a present record, with the profile
    /// lifetime, and the player leaves the unknown-set; "upstream has none"
    /// goes into the unknown-set, scored with the time at which the marker
    /// lapses, and the player's key is removed. Either way the new
    /// classification is the only one the player has.
    pub open spec fn starts_set(
        self,
        uuid: PlayerId,
        player: Option<PlayerInfo>,
        now: u64,
        task: Task,
        action: Action,
    ) -> bool {
        &&& task == Task::Store
        &&& match player {
            Some(info) => action.stores(uuid, enc_record(Some(info@)), self.profile_ttl),
            None => action.marks(uuid, lapse(now, self.unknown_ttl)),
        }
    }

    /// How an enumeration starts: with nothing met yet, by asking for the
    /// first page of a walk through the keys of the current generation.
    pub open spec fn starts_all(self, now: u64, task: Task, action: Action) -> bool {
        &&& task matches Task::Scan { now: at, seen, known, skipped }
        &&& at == now
        &&& seen@.len() == 0
        &&& known@.len() == 0
        &&& skipped@.len() == 0
        &&& action.scans(Generation::Current, 0)
    }

    /// How an enumeration goes on once a page is dealt with. While the walk
    /// is not over, the next page is asked for. A walk that met no key at all
    /// ends the enumeration at once, with nothing; after any other walk the
    /// unknown-set is read.
    pub open spec fn goes_on(
        self,
        now: u64,
        cursor: u64,
        seen: Seq<Seq<char>>,
        known: Seq<PlayerInfoView>,
        skipped: Seq<Seq<char>>,
        next: Task,
        action: Action,
    ) -> bool {
        if cursor != 0 {
            &&& next matches Task::Scan { now: at, seen: s, known: k, skipped: sk }
            &&& at == now
            &&& texts(s@) == seen
            &&& infos_view(k@) == known
            &&& texts(sk@) == skipped
            &&& action.scans(Generation::Current, cursor)
        } else if seen.len() == 0 && skipped.len() == 0 {
            &&& next == Task::Finished
            &&& action matches Action::Finish(Ok(Outcome::Players(all)))
            &&& all.is_empty()
        } else {
            &&& next matches Task::Members { known: k, skipped: sk, now: at }
            &&& infos_view(k@) == known
            &&& texts(sk@) == skipped
            &&& at == now
            &&& action.asks_members(now)
        }
    }

    /// How a request for a player starts: by asking for the value under the
    /// player's key.
    pub open spec fn starts_request(self, uuid: PlayerId, now: u64, task: Task, action: Action) -> bool {
        &&& task == Task::Resolve { id: uuid, now }
        &&& action matches Action::Send(Command::Get { key })
        &&& key@ == key_text(Generation::Current, uuid)
    }

    /// What a reply does to a request that waits for the player's value: a
    /// cached profile is served, and upstream is not asked. Where the key
    /// holds nothing, the unknown-set is looked into.
    pub open spec fn resumes_resolve(
        self,
        id: PlayerId,
        now: u64,
        reply: Reply,
        next: Task,
        action: Action,
    ) -> bool {
        match reply {
            Reply::Value(v) => match read_value(Generation::Current, v) {
                Ok(Some(Some(p))) => {
                    &&& next == Task::Finished
                    &&& action matches Action::Finish(Ok(Outcome::Info(Some(info))))
                    &&& info@ == p
                },
                Ok(Some(None)) => {
                    &&& next == Task::Finished
                    &&& action == Action::Finish(Ok(Outcome::Info(None)))
                },
                Ok(None) => {
                    &&& next == Task::ResolveScore { id, now }
                    &&& action matches Action::Send(Command::SortedSetScoreOf { set, member })
                    &&& set@ == UNKNOWN_SET_KEY@
                    &&& member@ == hyphenated(id.0)
                },
                Err(kind) => next == Task::Finished && action.fails_on(kind, v),
            },
            _ => next == Task::Finished && action.rejects(),
        }
    }

    /// What a reply does to a request that waits for the player's score: a
    /// player whose marker has not lapsed is known to be unknown, and
    /// upstream is not asked. In every other case upstream is asked.
    pub open spec fn resumes_resolve_score(
        self,
        id: PlayerId,
        now: u64,
        reply: Reply,
        next: Task,
        action: Action,
    ) -> bool {
        match reply {
            Reply::Score(score) => if score matches Some(s) && s > now {
                &&& next == Task::Finished
                &&& action == Action::Finish(Ok(Outcome::Info(None)))
            } else {
                &&& next == Task::ResolveFetch { id, now }
                &&& action == Action::Fetch(id)
            },
            _ => next == Task::Finished && action.rejects(),
        }
    }

    /// What an answer from upstream does to a task. The request that waits
    /// for it records what [`Upstream::verdict`] says: a profile is stored
    /// under the player's key, and served once that is done; an unknown
    /// player is marked as unknown; after a failed fetch nothing is recorded
    /// and nothing can be served. No other task waits for upstream.
    pub open spec fn fetches(self, task: Task, answer: Upstream, next: Task, action: Action) -> bool {
        match task {
            Task::ResolveFetch { id, now } => match answer.verdict() {
                Some(Some(info)) => {
                    &&& next matches Task::ResolveStore { profile: Some(served) }
                    &&& served@ == info@
                    &&& action.stores(id, enc_record(Some(info@)), self.profile_ttl)
                },
                Some(None) => {
                    &&& next == Task::ResolveStore { profile: None }
                    &&& action.marks(id, lapse(now, self.unknown_ttl))
                },
                None => {
                    &&& next == Task::Finished
                    &&& action == Action::Finish(Ok(Outcome::Unavailable))
                },
            },
            _ => next == Task::Finished && action.rejects(),
        }
    }

    /// What a reply does to a lookup that waits for the player's value.
    pub open spec fn resumes_lookup(
        self,
        id: PlayerId,
        now: u64,
        reply: Reply,
        next: Task,
        action: Action,
    ) -> bool {
        match reply {
            Reply::Value(v) => match read_value(Generation::Current, v) {
                Ok(Some(Some(p))) => {
                    &&& next == Task::Finished
                    &&& action matches Action::Finish(Ok(Outcome::Info(Some(info))))
                    &&& info@ == p
                },
                Ok(Some(None)) => {
                    &&& next == Task::Finished
                    &&& action == Action::Finish(Ok(Outcome::Info(None)))
                },
                Ok(None) => {
                    &&& next == Task::LookupScore { id, now }
                    &&& action matches Action::Send(Command::SortedSetScoreOf { set, member })
                    &&& set@ == UNKNOWN_SET_KEY@
                    &&& member@ == hyphenated(id.0)
                },
                Err(kind) => next == Task::Finished && action.fails_on(kind, v),
            },
            _ => next == Task::Finished && action.rejects(),
        }
    }

    /// What a reply does to a lookup that waits for the player's score: a
    /// player that has a score is left alone, and a player that has none is
    /// marked.
    pub open spec fn resumes_lookup_score(
        self,
        id: PlayerId,
        now: u64,
        reply: Reply,
        next: Task,
        action: Action,
    ) -> bool {
        match reply {
            Reply::Score(Some(_)) => {
                &&& next == Task::Finished
                &&& action == Action::Finish(Ok(Outcome::Info(None)))
            },
            Reply::Score(None) => {
                &&& next == Task::LookupMark
                &&& action.marks(id, lapse(now, self.unknown_ttl))
            },
            _ => next == Task::Finished && action.rejects(),
        }
    }

    /// What a page of keys does to an enumeration. The keys that lead to no
    /// player are set aside. The keys that lead to a player and were not met
    /// before are fetched; where the page holds none, the enumeration goes
    /// on.
    pub open spec fn resumes_scan(
        self,
        now: u64,
        seen: Vec<String>,
        known: Vec<PlayerInfo>,
        skipped: Vec<String>,
        reply: Reply,
        next: Task,
        action: Action,
    ) -> bool {
        match reply {
            Reply::Page { cursor, keys } => {
                let fresh = fresh_keys(Generation::Current, texts(seen@), texts(keys@));
                let passed = texts(skipped@) + ill_keyed(Generation::Current, texts(keys@));
                if fresh.len() > 0 {
                    &&& next matches Task::Fetch {
                        now: at,
                        next: from,
                        count,
                        seen: s,
                        known: k,
                        skipped: sk,
                    }
                    &&& at == now
                    &&& from == cursor
                    &&& count == fresh.len()
                    &&& texts(s@) == texts(seen@) + fresh
                    &&& infos_view(k@) == infos_view(known@)
                    &&& texts(sk@) == passed
                    &&& action matches Action::Send(Command::MultiGet { keys: fetched })
                    &&& texts(fetched@) == fresh
                } else {
                    self.goes_on(
                        now,
                        cursor,
                        texts(seen@),
                        infos_view(known@),
                        passed,
                        next,
                        action,
                    )
                }
            },
            _ => next == Task::Finished && action.rejects(),
        }
    }

    /// What the fetched values do to an enumeration: the profiles among them
    /// are added to the known ones, and the enumeration goes on. The first
    /// value that cannot be read fails the enumeration.
    pub open spec fn resumes_fetch(
        self,
        now: u64,
        cursor: u64,
        count: usize,
        seen: Vec<String>,
        known: Vec<PlayerInfo>,
        skipped: Vec<String>,
        reply: Reply,
        next: Task,
        action: Action,
    ) -> bool {
        match reply {
            Reply::Values(vs) => if vs@.len() != count {
                next == Task::Finished && action.rejects()
            } else {
                match present_profiles(vs@) {
                    Ok(ps) => self.goes_on(
                        now,
                        cursor,
                        texts(seen@),
                        infos_view(known@) + ps,
                        texts(skipped@),
                        next,
                        action,
                    ),
                    Err(i) => {
                        &&& next == Task::Finished
                        &&& 0 <= i < vs@.len()
                        &&& read_value(Generation::Current, vs@[i]) matches Err(kind)
                        &&& action.fails_on(kind, vs@[i])
                    },
                }
            },
            _ => next == Task::Finished && action.rejects(),
        }
    }

    /// What the members of the unknown-set do to an enumeration: the players
    /// they name are kept, and the lapsed members are removed next.
    pub open spec fn resumes_members(
        self,
        known: Vec<PlayerInfo>,
        skipped: Vec<String>,
        now: u64,
        reply: Reply,
        next: Task,
        action: Action,
    ) -> bool {
        match reply {
            Reply::Members(ms) => {
                &&& next matches Task::Purge { found }
                &&& found.known == known
                &&& found.unknown@ == member_ids(texts(ms@))
                &&& texts(found.skipped@) == texts(skipped@) + unreadable_members(texts(ms@))
                &&& action matches Action::Send(Command::SortedSetRemoveByScore { set, up_to })
                &&& set@ == UNKNOWN_SET_KEY@
                &&& up_to == now
            },
            _ => next == Task::Finished && action.rejects(),
        }
    }

    /// What a reply other than a failure does to a task: the next task and
    /// the next action. A reply that is no answer to the task's command ends
    /// the task with [`StoreError::UnexpectedReply`].
    pub open spec fn resumes_cache(self, task: Task, reply: Reply, next: Task, action: Action) -> bool {
        match task {
            Task::Probe => next == Task::Finished && match reply {
                Reply::Done => action == Action::Finish(Ok(Outcome::Ready)),
                _ => action.rejects(),
            },
            Task::Exists => next == Task::Finished && match reply {
                Reply::Flag(b) => action == Action::Finish(Ok(Outcome::Has(b))),
                _ => action.rejects(),
            },
            Task::Store => next == Task::Finished && match reply {
                Reply::Done => action == Action::Finish(Ok(Outcome::Stored)),
                _ => action.rejects(),
            },
            Task::Lookup { id, now } => self.resumes_lookup(id, now, reply, next, action),
            Task::LookupScore { id, now } => self.resumes_lookup_score(
                id,
                now,
                reply,
                next,
                action,
            ),
            Task::LookupMark => next == Task::Finished && match reply {
                Reply::Done => action == Action::Finish(Ok(Outcome::Info(None))),
                _ => action.rejects(),
            },
            Task::Resolve { id, now } => self.resumes_resolve(id, now, reply, next, action),
            Task::ResolveScore { id, now } => self.resumes_resolve_score(
                id,
                now,
                reply,
                next,
                action,
            ),
            Task::ResolveFetch { .. } => next == Task::Finished && action.rejects(),
            Task::ResolveStore { profile } => next == Task::Finished && match reply {
                Reply::Done => action == Action::Finish(Ok(Outcome::Info(profile))),
                _ => action.rejects(),
            },
            Task::Scan { now, seen, known, skipped } => self.resumes_scan(
                now,
                seen,
                known,
                skipped,
                reply,
                next,
                action,
            ),
            Task::Fetch { now, next: cursor, count, seen, known, skipped } => self.resumes_fetch(
                now,
                cursor,
                count,
                seen,
                known,
                skipped,
                reply,
                next,
                action,
            ),
            Task::Members { known, skipped, now } => self.resumes_members(
                known,
                skipped,
                now,
                reply,
                next,
                action,
            ),
            Task::Purge { found } => next == Task::Finished && match reply {
                Reply::Done => action == Action::Finish(Ok(Outcome::Players(found))),
                _ => action.rejects(),
            },
            Task::Finished => next == Task::Finished && action.rejects(),
            _ => self.resumes_migration(task, reply, next, action),
        }
    }

    /// What a reply does to a task. A failure of the backend ends the task
    /// with that failure: as [`StoreError::Unreachable`] where the store was
    /// being opened, as [`StoreError::Backend`] in every other case.
    pub open spec fn resumes(self, task: Task, reply: Reply, next: Task, action: Action) -> bool {
        match reply {
            Reply::Failed(why) => next == Task::Finished && action == Action::Finish(
                Err(
                    if task is Probe {
                        StoreError::Unreachable(why)
                    } else {
                        StoreError::Backend(why)
                    },
                ),
            ),
            _ => self.resumes_cache(task, reply, next, action),
        }
    }

    /// Opens the store: makes sure that the backend is there. The caller
    /// starts no other operation unless this one ends well.
    pub fn connect(&self) -> (r: (Task, Action))
        ensures
            self.starts_connect(r.0, r.1),
    {
        (Task::Probe, Action::Send(Command::Ping))
    }

    /// Serves a request for a player: from the cache where the cache knows
    /// the player, else from upstream, whose answer is recorded. This is the
    /// whole protocol of a profile route: check the cache, ask upstream on a
    /// miss, fill the cache.
    pub fn request_player_info(&self, uuid: PlayerId, now: u64) -> (r: (Task, Action))
        ensures
            self.starts_request(uuid, now, r.0, r.1),
    {
        let key = profile_key(Generation::Current, uuid);
        (Task::Resolve { id: uuid, now }, Action::Send(Command::Get { key }))
    }

    /// Moves a task on with what upstream said.
    pub fn fetched(&self, task: Task, answer: Upstream) -> (r: (Task, Action))
        ensures
            self.fetches(task, answer, r.0, r.1),
    {
        match task {
            Task::ResolveFetch { id, now } => match answer.classify() {
                Some(Some(info)) => {
                    let action = self.store_profile(id, &info);
                    (Task::ResolveStore { profile: Some(info) }, action)
                },
                Some(None) => (Task::ResolveStore { profile: None }, self.mark_unknown(id, now)),
                None => Self::finish(Outcome::Unavailable),
            },
            _ => Self::reject(),
        }
    }

    /// Asks whether the player's profile is cached. The unknown-set is not
    /// consulted: the answer is `true` exactly for a cached profile.
    pub fn has_player_info(&self, uuid: PlayerId) -> (r: (Task, Action))
        ensures
            self.starts_has(uuid, r.0, r.1),
    {
        let key = profile_key(Generation::Current, uuid);
        (Task::Exists, Action::Send(Command::Exists { key }))
    }

    /// Looks up the player's profile. Where none is cached, the caller is to
    /// ask upstream; the player is marked as unknown meanwhile, unless the
    /// unknown-set holds a score for the player already.
    pub fn get_player_info(&self, uuid: PlayerId, now: u64) -> (r: (Task, Action))
        ensures
            self.starts_get(uuid, now, r.0, r.1),
    {
        let key = profile_key(Generation::Current, uuid);
        (Task::Lookup { id: uuid, now }, Action::Send(Command::Get { key }))
    }

    /// Records what upstream said of a player: the profile, or that it has
    /// none. What was recorded of the player before is superseded.
    pub fn set_player_info(&self, uuid: PlayerId, player: Option<PlayerInfo>, now: u64) -> (r: (
        Task,
        Action,
    ))
        ensures
            self.starts_set(uuid, player, now, r.0, r.1),
    {
        match player {
            Some(info) => (Task::Store, self.store_profile(uuid, &info)),
            None => (Task::Store, self.mark_unknown(uuid, now)),
        }
    }

    /// Lists every cached profile and every player whose "unknown" marker has
    /// not lapsed, and removes the lapsed markers. The keys are found by a
    /// walk through the key space, page by page, and the values of each page
    /// are fetched before the next page is asked for.
    pub fn get_all_players(&self, now: u64) -> (r: (Task, Action))
        ensures
            self.starts_all(now, r.0, r.1),
    {
        (
            Task::Scan { now, seen: Vec::new(), known: Vec::new(), skipped: Vec::new() },
            Self::scan(Generation::Current, 0),
        )
    }

    pub(crate) fn scan(generation: Generation, cursor: u64) -> (r: Action)
        ensures
            r.scans(generation, cursor),
    {
        Action::Send(Command::ScanMatch { prefix: scan_prefix(generation), cursor })
    }

    fn go_on(
        &self,
        now: u64,
        cursor: u64,
        seen: Vec<String>,
        known: Vec<PlayerInfo>,
        skipped: Vec<String>,
    ) -> (r: (Task, Action))
        ensures
            self.goes_on(now, cursor, texts(seen@), infos_view(known@), texts(skipped@), r.0, r.1),
    {
        if cursor != 0 {
            (Task::Scan { now, seen, known, skipped }, Self::scan(Generation::Current, cursor))
        } else if seen.len() == 0 && skipped.len() == 0 {
            Self::finish(
                Outcome::Players(
                    AllPlayers { known: Vec::new(), unknown: Vec::new(), skipped: Vec::new() },
                ),
            )
        } else {
            (Task::Members { known, skipped, now }, Self::ask_members(now))
        }
    }

    fn mark_unknown(&self, id: PlayerId, now: u64) -> (r: Action)
        ensures
            r.marks(id, lapse(now, self.unknown_ttl)),
    {
        let mut writes: Vec<Write> = Vec::new();
        writes.push(
            Write::SortedSetAdd {
                set: String::from_str(UNKNOWN_SET_KEY),
                member: id.to_text(),
                score: expire_time(now, self.unknown_ttl),
            },
        );
        writes.push(Write::Delete { key: profile_key(Generation::Current, id) });
        Action::Send(Command::Pipeline(writes))
    }

    fn store_profile(&self, id: PlayerId, info: &PlayerInfo) -> (r: Action)
        ensures
            r.stores(id, enc_record(Some(info@)), self.profile_ttl),
    {
        let mut writes: Vec<Write> = Vec::new();
        writes.push(
            Write::Put {
                key: profile_key(Generation::Current, id),
                value: encode_profile(info),
                ttl: self.profile_ttl,
            },
        );
        writes.push(
            Write::SortedSetRemove { set: String::from_str(UNKNOWN_SET_KEY), member: id.to_text() },
        );
        Action::Send(Command::Pipeline(writes))
    }

    fn ask_members(now: u64) -> (r: Action)
        ensures
            r.asks_members(now),
    {
        Action::Send(
            Command::SortedSetRangeByScore { set: String::from_str(UNKNOWN_SET_KEY), above: now },
        )
    }

    fn reject() -> (r: (Task, Action))
        ensures
            r.0 == Task::Finished,
            r.1.rejects(),
    {
        (Task::Finished, Action::Finish(Err(StoreError::UnexpectedReply)))
    }

    fn finish(outcome: Outcome) -> (r: (Task, Action))
        ensures
            r == (Task::Finished, Action::Finish(Ok(outcome))),
    {
        (Task::Finished, Action::Finish(Ok(outcome)))
    }

    fn resume_lookup(&self, id: PlayerId, now: u64, reply: Reply) -> (r: (Task, Action))
        requires
            !(reply is Failed),
        ensures
            self.resumes_lookup(id, now, reply, r.0, r.1),
    {
        match reply {
            Reply::Value(v) => match decode_value(Generation::Current, v) {
                Ok(Some(OptionalPlayerInfo::Present(info))) => Self::finish(
                    Outcome::Info(Some(info)),
                ),
                Ok(Some(OptionalPlayerInfo::Unknown)) => Self::finish(Outcome::Info(None)),
                Ok(None) => (
                    Task::LookupScore { id, now },
                    Action::Send(
                        Command::SortedSetScoreOf {
                            set: String::from_str(UNKNOWN_SET_KEY),
                            member: id.to_text(),
                        },
                    ),
                ),
                Err(e) => (Task::Finished, Action::Finish(Err(StoreError::Decode(e)))),
            },
            _ => Self::reject(),
        }
    }

    fn resume_resolve(&self, id: PlayerId, now: u64, reply: Reply) -> (r: (Task, Action))
        requires
            !(reply is Failed),
        ensures
            self.resumes_resolve(id, now, reply, r.0, r.1),
    {
        match reply {
            Reply::Value(v) => match decode_value(Generation::Current, v) {
                Ok(Some(OptionalPlayerInfo::Present(info))) => Self::finish(
                    Outcome::Info(Some(info)),
                ),
                Ok(Some(OptionalPlayerInfo::Unknown)) => Self::finish(Outcome::Info(None)),
                Ok(None) => (
                    Task::ResolveScore { id, now },
                    Action::Send(
                        Command::SortedSetScoreOf {
                            set: String::from_str(UNKNOWN_SET_KEY),
                            member: id.to_text(),
                        },
                    ),
                ),
                Err(e) => (Task::Finished, Action::Finish(Err(StoreError::Decode(e)))),
            },
            _ => Self::reject(),
        }
    }

    fn resume_scan(
        &self,
        now: u64,
        seen: Vec<String>,
        known: Vec<PlayerInfo>,
        skipped: Vec<String>,
        reply: Reply,
    ) -> (r: (Task, Action))
        requires
            !(reply is Failed),
        ensures
            self.resumes_scan(now, seen, known, skipped, reply, r.0, r.1),
    {
        match reply {
            Reply::Page { cursor, keys } => {
                let mut split = split_keys(Generation::Current, &seen, keys);
                let mut passed = skipped;
                passed.append(&mut split.skipped);
                proof {
                    assert(texts(passed@) =~= texts(skipped@) + ill_keyed(
                        Generation::Current,
                        texts(keys@),
                    ));
                }
                if split.fresh.len() > 0 {
                    let mut met = seen;
                    let mut fresh = copy_texts(&split.fresh);
                    met.append(&mut fresh);
                    proof {
                        assert(texts(met@) =~= texts(seen@) + texts(split.fresh@));
                    }
                    (
                        Task::Fetch {
                            now,
                            next: cursor,
                            count: split.fresh.len(),
                            seen: met,
                            known,
                            skipped: passed,
                        },
                        Action::Send(Command::MultiGet { keys: split.fresh }),
                    )
                } else {
                    self.go_on(now, cursor, seen, known, passed)
                }
            },
            _ => Self::reject(),
        }
    }

    fn resume_fetch(
        &self,
        now: u64,
        cursor: u64,
        count: usize,
        seen: Vec<String>,
        known: Vec<PlayerInfo>,
        skipped: Vec<String>,
        reply: Reply,
    ) -> (r: (Task, Action))
        requires
            !(reply is Failed),
        ensures
            self.resumes_fetch(now, cursor, count, seen, known, skipped, reply, r.0, r.1),
    {
        match reply {
            Reply::Values(vs) => {
                if vs.len() != count {
                    return Self::reject();
                }
                match collect_profiles(vs) {
                    Ok(mut found) => {
                        let mut all = known;
                        all.append(&mut found);
                        proof {
                            assert(infos_view(all@) =~= infos_view(known@) + present_profiles(
                                vs@,
                            )->Ok_0);
                        }
                        self.go_on(now, cursor, seen, all, skipped)
                    },
                    Err(e) => (Task::Finished, Action::Finish(Err(StoreError::Decode(e)))),
                }
            },
            _ => Self::reject(),
        }
    }

    fn resume_members(
        &self,
        known: Vec<PlayerInfo>,
        skipped: Vec<String>,
        now: u64,
        reply: Reply,
    ) -> (r: (Task, Action))
        requires
            !(reply is Failed),
        ensures
            self.resumes_members(known, skipped, now, reply, r.0, r.1),
    {
        match reply {
            Reply::Members(ms) => {
                let (unknown, mut unreadable) = split_members(ms);
                let mut all_skipped = skipped;
                all_skipped.append(&mut unreadable);
                proof {
                    assert(texts(all_skipped@) =~= texts(skipped@) + unreadable_members(
                        texts(ms@),
                    ));
                }
                (
                    Task::Purge { found: AllPlayers { known, unknown, skipped: all_skipped } },
                    Action::Send(
                        Command::SortedSetRemoveByScore {
                            set: String::from_str(UNKNOWN_SET_KEY),
                            up_to: now,
                        },
                    ),
                )
            },
            _ => Self::reject(),
        }
    }

    /// Moves a task on with the backend's reply to its command.
    pub fn resume(&self, task: Task, reply: Reply) -> (r: (Task, Action))
        ensures
            self.resumes(task, reply, r.0, r.1),
    {
        let reply = match reply {
            Reply::Failed(why) => {
                let error = match task {
                    Task::Probe => StoreError::Unreachable(why),
                    _ => StoreError::Backend(why),
                };
                return (Task::Finished, Action::Finish(Err(error)));
            },
            other => other,
        };
        match task {
            Task::Probe => match reply {
                Reply::Done => Self::finish(Outcome::Ready),
                _ => Self::reject(),
            },
            Task::Exists => match reply {
                Reply::Flag(b) => Self::finish(Outcome::Has(b)),
                _ => Self::reject(),
            },
            Task::Store => match reply {
                Reply::Done => Self::finish(Outcome::Stored),
                _ => Self::reject(),
            },
            Task::Lookup { id, now } => self.resume_lookup(id, now, reply),
            Task::LookupScore { id, now } => match reply {
                Reply::Score(Some(_)) => Self::finish(Outcome::Info(None)),
                Reply::Score(None) => (Task::LookupMark, self.mark_unknown(id, now)),
                _ => Self::reject(),
            },
            Task::LookupMark => match reply {
                Reply::Done => Self::finish(Outcome::Info(None)),
                _ => Self::reject(),
            },
            Task::Resolve { id, now } => self.resume_resolve(id, now, reply),
            Task::ResolveScore { id, now } => match reply {
                Reply::Score(Some(s)) if s > now => Self::finish(Outcome::Info(None)),
                Reply::Score(_) => (Task::ResolveFetch { id, now }, Action::Fetch(id)),
                _ => Self::reject(),
            },
            Task::ResolveFetch { .. } => Self::reject(),
            Task::ResolveStore { profile } => match reply {
                Reply::Done => Self::finish(Outcome::Info(profile)),
                _ => Self::reject(),
            },
            Task::Scan { now, seen, known, skipped } => self.resume_scan(
                now,
                seen,
                known,
                skipped,
                reply,
            ),
            Task::Fetch { now, next, count, seen, known, skipped } => self.resume_fetch(
                now,
                next,
                count,
                seen,
                known,
                skipped,
                reply,
            ),
            Task::Members { known, skipped, now } => self.resume_members(
                known,
                skipped,
                now,
                reply,
            ),
            Task::Purge { found } => match reply {
                Reply::Done => Self::finish(Outcome::Players(found)),
                _ => Self::reject(),
            },
            Task::MigrateScan { now, seen, known, unknown, skipped } => self.resume_migrate_scan(
                now,
                seen,
                known,
                unknown,
                skipped,
                reply,
            ),
            Task::MigrateFetch {
                now,
                next,
                ids,
                seen,
                known,
                unknown,
                skipped,
            } => self.resume_migrate_fetch(now, next, ids, seen, known, unknown, skipped, reply),
            Task::MigrateWrite { report } => match reply {
                Reply::Done => Self::finish(Outcome::Migrated(report)),
                _ => Self::reject(),
            },
            Task::Finished => Self::reject(),
        }
    }
}

} // verus!
