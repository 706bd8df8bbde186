//! The backend as the cache sees it: the commands the cache may issue, the
//! replies it may get, and a mathematical model of what a key-value store with
//! expiring keys and score-ordered sets does with each command.
//!
//! The cache never talks to a backend itself. It hands out a [`Command`], the
//! caller performs it, and the caller hands back the [`Reply`]. What the cache
//! concludes from a reply is proved for every reply; what a whole operation
//! achieves is proved for every backend that behaves as the model says.

use vstd::prelude::*;
use crate::codec::RawValue;

verus! {

/// A command that changes the backend.
#[derive(Clone, Debug, PartialEq, Eq)]
pub enum Write {
    /// Stores a value under a key and lets it expire `ttl` seconds later, in
    /// one step: the key never exists without an expiry.
    Put { key: String, value: Vec<u8>, ttl: u64 },
    /// Puts a member into a sorted set with the given score, or changes the
    /// score of a member that is already there.
    SortedSetAdd { set: String, member: String, score: u64 },
    /// Removes a key together with what it holds.
    Delete { key: String },
    /// Takes a member out of a sorted set.
    SortedSetRemove { set: String, member: String },
}

/// A command for the backend.
#[derive(Clone, Debug, PartialEq, Eq)]
pub enum Command {
    /// Is the backend there? Asked once, before anything else.
    Ping,
    /// Does the key exist?
    Exists { key: String },
    /// The value under a key.
    Get { key: String },
    /// The values under several keys, in the order of the keys.
    MultiGet { keys: Vec<String> },
    /// One step of a walk through the key space: the keys that start with the
    /// prefix among those that the step passes. A walk starts at the cursor
    /// `0` and goes on from the cursor that the last step handed back, so
    /// that the backend never has to list a whole namespace at once. A key
    /// may be reported more than once in the course of a walk.
    ScanMatch { prefix: String, cursor: u64 },
    /// The score of a member of a sorted set.
    SortedSetScoreOf { set: String, member: String },
    /// The members of a sorted set whose score is greater than `above`.
    SortedSetRangeByScore { set: String, above: u64 },
    /// Removes the members of a sorted set whose score is at most `up_to`.
    SortedSetRemoveByScore { set: String, up_to: u64 },
    /// One write.
    Write(Write),
    /// Several writes, sent as one batch and applied in order.
    Pipeline(Vec<Write>),
}

/// What the backend answered.
#[derive(Clone, Debug, PartialEq, Eq)]
pub enum Reply {
    /// The answer to [`Command::Exists`].
    Flag(bool),
    /// The answer to [`Command::Get`].
    Value(RawValue),
    /// The answer to [`Command::MultiGet`].
    Values(Vec<RawValue>),
    /// The answer to [`Command::ScanMatch`]: the keys of this step, and the
    /// cursor to go on from, which is `0` when the walk is over.
    Page { cursor: u64, keys: Vec<String> },
    /// The answer to [`Command::SortedSetScoreOf`].
    Score(Option<u64>),
    /// The answer to [`Command::SortedSetRangeByScore`].
    Members(Vec<String>),
    /// The command was carried out and has nothing to report.
    Done,
    /// The backend could not carry out the command; the text says why.
    Failed(String),
}

/// The texts of a list of strings.
pub open spec fn texts(v: Seq<String>) -> Seq<Seq<char>> {
    v.map_values(|s: String| s@)
}

/// A stored value with the time at which it expires.
pub struct Entry {
    pub value: Seq<u8>,
    pub expires_at: u64,
}

/// The contents of a backend: the values by key, the scores by set and
/// member, and the order in which a walk passes the keys. An entry whose time
/// has come stays in the map and is dead.
pub struct BackendState {
    pub entries: Map<Seq<char>, Entry>,
    pub scores: Map<(Seq<char>, Seq<char>), u64>,
    /// The keys in the order of a walk. A cursor is a position in this list.
    /// A key may stand in it more than once.
    pub journal: Seq<Seq<char>>,
}

impl RawValue {
    /// Whether this value reports the given content of a key: `None` for a
    /// key that holds nothing, else the bytes it holds.
    pub open spec fn reports(self, content: Option<Seq<u8>>) -> bool {
        match self {
            RawValue::Nil => content is None,
            RawValue::Bulk(bytes) => content == Some(bytes@),
            RawValue::Other(_) => false,
        }
    }
}

impl BackendState {
    /// A backend that holds nothing.
    pub open spec fn empty() -> BackendState {
        BackendState { entries: Map::empty(), scores: Map::empty(), journal: Seq::empty() }
    }

    /// Whether a walk passes every key that holds something.
    pub open spec fn wf(self) -> bool {
        forall|k: Seq<char>| self.entries.dom().contains(k) ==> #[trigger] self.journal.contains(k)
    }

    /// Whether a walk passes the key between the cursors `from` and `to`.
    pub open spec fn passes(self, from: int, to: int, key: Seq<char>) -> bool {
        exists|i: int| from <= i < to && 0 <= i < self.journal.len() && #[trigger] self.journal[i] == key
    }

    /// Whether `keys` and `next` are a true answer to a step of a walk from
    /// `cursor` for the keys with the prefix: the step passes at least one
    /// key unless the walk is over, and it reports the live keys with the
    /// prefix among those it passes.
    pub open spec fn steps(
        self,
        prefix: Seq<char>,
        now: u64,
        cursor: u64,
        next: u64,
        keys: Seq<Seq<char>>,
    ) -> bool {
        if cursor > self.journal.len() {
            next == 0 && keys.len() == 0
        } else {
            let end = if next == 0 {
                self.journal.len() as int
            } else {
                next as int
            };
            &&& cursor <= end <= self.journal.len()
            &&& next != 0 ==> cursor < next
            &&& forall|k: Seq<char>| #[trigger]
                keys.contains(k) <==> self.passes(cursor as int, end, k) && self.live(k, now)
                    && prefix.is_prefix_of(k)
        }
    }

    /// Whether a key exists at the given time.
    pub open spec fn live(self, key: Seq<char>, now: u64) -> bool {
        self.entries.dom().contains(key) && now < self.entries[key].expires_at
    }

    /// What a key holds at the given time.
    pub open spec fn content(self, key: Seq<char>, now: u64) -> Option<Seq<u8>> {
        if self.live(key, now) {
            Some(self.entries[key].value)
        } else {
            None
        }
    }

    /// The score of a member of a set, if it is a member.
    pub open spec fn score(self, set: Seq<char>, member: Seq<char>) -> Option<u64> {
        if self.scores.dom().contains((set, member)) {
            Some(self.scores[(set, member)])
        } else {
            None
        }
    }

    /// The members of a set whose score is at most `up_to`, each with the set.
    pub open spec fn lapsed(self, set: Seq<char>, up_to: u64) -> Set<(Seq<char>, Seq<char>)> {
        Set::new(
            |k: (Seq<char>, Seq<char>)|
                k.0 == set && self.scores.dom().contains(k) && self.scores[k] <= up_to,
        )
    }

    /// The backend after one write at the given time.
    pub open spec fn after_write(self, w: Write, now: u64) -> BackendState {
        match w {
            Write::Put { key, value, ttl } => BackendState {
                entries: self.entries.insert(
                    key@,
                    Entry { value: value@, expires_at: crate::keys::lapse(now, ttl) },
                ),
                journal: self.journal.push(key@),
                ..self
            },
            Write::SortedSetAdd { set, member, score } => BackendState {
                scores: self.scores.insert((set@, member@), score),
                ..self
            },
            Write::Delete { key } => BackendState { entries: self.entries.remove(key@), ..self },
            Write::SortedSetRemove { set, member } => BackendState {
                scores: self.scores.remove((set@, member@)),
                ..self
            },
        }
    }

    /// The backend after several writes, applied in order.
    pub open spec fn after_writes(self, ws: Seq<Write>, now: u64) -> BackendState
        decreases ws.len(),
    {
        if ws.len() == 0 {
            self
        } else {
            self.after_writes(ws.drop_last(), now).after_write(ws.last(), now)
        }
    }

    /// The backend after a command at the given time.
    pub open spec fn after(self, cmd: Command, now: u64) -> BackendState {
        match cmd {
            Command::SortedSetRemoveByScore { set, up_to } => BackendState {
                scores: self.scores.remove_keys(self.lapsed(set@, up_to)),
                ..self
            },
            Command::Write(w) => self.after_write(w, now),
            Command::Pipeline(ws) => self.after_writes(ws@, now),
            _ => self,
        }
    }

    /// Whether a reply is a true answer to a command at the given time.
    pub open spec fn answers(self, cmd: Command, now: u64, reply: Reply) -> bool {
        match cmd {
            Command::Ping => reply == Reply::Done,
            Command::Exists { key } => reply == Reply::Flag(self.live(key@, now)),
            Command::Get { key } => reply matches Reply::Value(v) && v.reports(
                self.content(key@, now),
            ),
            Command::MultiGet { keys } => reply matches Reply::Values(vs) && vs@.len()
                == keys@.len() && forall|i: int|
                0 <= i < keys@.len() ==> (#[trigger] vs@[i]).reports(self.content(keys@[i]@, now)),
            Command::ScanMatch { prefix, cursor } => reply matches Reply::Page {
                cursor: next,
                keys,
            } && self.steps(prefix@, now, cursor, next, texts(keys@)),
            Command::SortedSetScoreOf { set, member } => reply == Reply::Score(
                self.score(set@, member@),
            ),
            Command::SortedSetRangeByScore { set, above } => reply matches Reply::Members(ms)
                && texts(ms@).no_duplicates() && forall|m: Seq<char>|
                #![trigger texts(ms@).contains(m)]
                texts(ms@).contains(m) <==> self.scores.dom().contains((set@, m))
                    && self.scores[(set@, m)] > above,
            Command::SortedSetRemoveByScore { .. } => reply == Reply::Done,
            Command::Write(_) => reply == Reply::Done,
            Command::Pipeline(_) => reply == Reply::Done,
        }
    }

    /// A walk passes a key up to a cursor if it passes it up to an earlier
    /// cursor or between the two.
    pub proof fn lemma_passes(self, from: int, mid: int, to: int, key: Seq<char>)
        requires
            from <= mid <= to,
        ensures
            self.passes(from, to, key) <==> self.passes(from, mid, key) || self.passes(
                mid,
                to,
                key,
            ),
    {
        if self.passes(from, to, key) {
            let i = choose|i: int|
                from <= i < to && 0 <= i < self.journal.len() && #[trigger] self.journal[i] == key;
            assert(self.journal[i] == key);
        }
        if self.passes(from, mid, key) {
            let i = choose|i: int|
                from <= i < mid && 0 <= i < self.journal.len() && #[trigger] self.journal[i]
                    == key;
            assert(self.journal[i] == key);
        }
        if self.passes(mid, to, key) {
            let i = choose|i: int|
                mid <= i < to && 0 <= i < self.journal.len() && #[trigger] self.journal[i] == key;
            assert(self.journal[i] == key);
        }
    }

    /// A whole walk passes every key that holds something.
    pub proof fn lemma_passes_all(self, key: Seq<char>)
        requires
            self.wf(),
            self.entries.dom().contains(key),
        ensures
            self.passes(0, self.journal.len() as int, key),
    {
        assert(self.journal.contains(key));
        let i = choose|i: int| 0 <= i < self.journal.len() && self.journal[i] == key;
        assert(self.journal[i] == key);
    }

    /// A write leaves every key that holds something on the path of a walk.
    pub proof fn lemma_write_keeps_wf(self, w: Write, now: u64)
        requires
            self.wf(),
        ensures
            self.after_write(w, now).wf(),
    {
        let after = self.after_write(w, now);
        assert forall|k: Seq<char>| after.entries.dom().contains(k) implies #[trigger] after.journal.contains(
            k,
        ) by {
            if self.entries.dom().contains(k) {
                assert(self.journal.contains(k));
                let i = choose|i: int| 0 <= i < self.journal.len() && self.journal[i] == k;
                assert(after.journal[i] == k);
            } else {
                assert(w is Put);
                assert(after.journal[after.journal.len() - 1] == k);
            }
        }
    }

    /// A batch of writes leaves every key that holds something on the path
    /// of a walk.
    pub proof fn lemma_writes_keep_wf(self, ws: Seq<Write>, now: u64)
        requires
            self.wf(),
        ensures
            self.after_writes(ws, now).wf(),
        decreases ws.len(),
    {
        if ws.len() > 0 {
            self.lemma_writes_keep_wf(ws.drop_last(), now);
            self.after_writes(ws.drop_last(), now).lemma_write_keeps_wf(ws.last(), now);
        }
    }

    /// Every command leaves every key that holds something on the path of a
    /// walk.
    pub proof fn lemma_after_keeps_wf(self, cmd: Command, now: u64)
        requires
            self.wf(),
        ensures
            self.after(cmd, now).wf(),
    {
        match cmd {
            Command::Write(w) => {
                self.lemma_write_keeps_wf(w, now);
            },
            Command::Pipeline(ws) => {
                self.lemma_writes_keep_wf(ws@, now);
            },
            _ => {},
        }
    }
}

} // verus!
