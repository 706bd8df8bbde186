//! A backend in memory that behaves as the model says, with a driver that
//! runs a whole operation against it. It is the executable counterpart of
//! [`crate::backend::BackendState`]: what is proved of the model holds of
//! every run against it.
//!
//! The backend is a journal: a write is appended, and the newest entry for a
//! key or a member is the one that counts. A key that is removed keeps its
//! place in the journal, with its entries struck out. A walk through the keys
//! passes the journal from its start, a fixed number of entries in each step.

use vstd::prelude::*;
use vstd::slice::slice_to_vec;
use crate::backend::{texts, BackendState, Command, Entry, Reply, Write};
use crate::cache::{Action, Outcome, Storage, StoreError, Task, Upstream};
use crate::codec::RawValue;
use crate::keys::expire_time;
use crate::scan::contains_text;

verus! {

struct StoredEntry {
    key: String,
    value: Vec<u8>,
    expires_at: u64,
    /// Whether the key was removed after this entry was written.
    gone: bool,
}

struct StoredScore {
    set: String,
    member: String,
    score: u64,
}

/// A key-value store with expiring keys and score-ordered sets, held in
/// memory.
pub struct MemoryBackend {
    entries: Vec<StoredEntry>,
    scores: Vec<StoredScore>,
    page: usize,
}

spec fn keys_of(log: Seq<StoredEntry>) -> Seq<Seq<char>> {
    log.map_values(|e: StoredEntry| e.key@)
}

spec fn entries_of(log: Seq<StoredEntry>) -> Map<Seq<char>, Entry>
    decreases log.len(),
{
    if log.len() == 0 {
        Map::empty()
    } else if log.last().gone {
        entries_of(log.drop_last())
    } else {
        entries_of(log.drop_last()).insert(
            log.last().key@,
            Entry { value: log.last().value@, expires_at: log.last().expires_at },
        )
    }
}

spec fn scores_of(log: Seq<StoredScore>) -> Map<(Seq<char>, Seq<char>), u64>
    decreases log.len(),
{
    if log.len() == 0 {
        Map::empty()
    } else {
        scores_of(log.drop_last()).insert((log.last().set@, log.last().member@), log.last().score)
    }
}

proof fn lemma_entry_found(log: Seq<StoredEntry>, i: int, key: Seq<char>)
    requires
        0 <= i < log.len(),
        log[i].key@ == key,
        !log[i].gone,
        forall|j: int| i < j < log.len() ==> log[j].key@ != key || log[j].gone,
    ensures
        entries_of(log).dom().contains(key),
        entries_of(log)[key] == (Entry { value: log[i].value@, expires_at: log[i].expires_at }),
    decreases log.len(),
{
    if i < log.len() - 1 {
        let front = log.drop_last();
        assert(log[log.len() - 1].key@ != key || log[log.len() - 1].gone);
        assert(front[i] == log[i]);
        assert forall|j: int| i < j < front.len() implies front[j].key@ != key
            || front[j].gone by {
            assert(front[j] == log[j]);
        }
        lemma_entry_found(front, i, key);
    }
}

proof fn lemma_entry_missing(log: Seq<StoredEntry>, key: Seq<char>)
    requires
        forall|j: int| 0 <= j < log.len() ==> log[j].key@ != key || log[j].gone,
    ensures
        !entries_of(log).dom().contains(key),
    decreases log.len(),
{
    if log.len() > 0 {
        let front = log.drop_last();
        assert(log[log.len() - 1].key@ != key || log[log.len() - 1].gone);
        assert forall|j: int| 0 <= j < front.len() implies front[j].key@ != key
            || front[j].gone by {
            assert(front[j] == log[j]);
        }
        lemma_entry_missing(front, key);
    }
}

proof fn lemma_entry_listed(log: Seq<StoredEntry>, key: Seq<char>) -> (i: int)
    requires
        entries_of(log).dom().contains(key),
    ensures
        0 <= i < log.len(),
        log[i].key@ == key,
    decreases log.len(),
{
    if log.len() == 0 {
        0
    } else if log.last().key@ == key {
        log.len() - 1
    } else {
        lemma_entry_listed(log.drop_last(), key)
    }
}

proof fn lemma_score_found(log: Seq<StoredScore>, i: int, set: Seq<char>, member: Seq<char>)
    requires
        0 <= i < log.len(),
        log[i].set@ == set,
        log[i].member@ == member,
        forall|j: int| i < j < log.len() ==> !(log[j].set@ == set && log[j].member@ == member),
    ensures
        scores_of(log).dom().contains((set, member)),
        scores_of(log)[(set, member)] == log[i].score,
    decreases log.len(),
{
    if i < log.len() - 1 {
        let front = log.drop_last();
        let last = log[log.len() - 1];
        assert(!(last.set@ == set && last.member@ == member));
        assert(front[i] == log[i]);
        assert forall|j: int| i < j < front.len() implies !(front[j].set@ == set
            && front[j].member@ == member) by {
            assert(front[j] == log[j]);
        }
        lemma_score_found(front, i, set, member);
    }
}

proof fn lemma_score_missing(log: Seq<StoredScore>, set: Seq<char>, member: Seq<char>)
    requires
        forall|j: int| 0 <= j < log.len() ==> !(log[j].set@ == set && log[j].member@ == member),
    ensures
        !scores_of(log).dom().contains((set, member)),
    decreases log.len(),
{
    if log.len() > 0 {
        let front = log.drop_last();
        let last = log[log.len() - 1];
        assert(!(last.set@ == set && last.member@ == member));
        assert forall|j: int| 0 <= j < front.len() implies !(front[j].set@ == set
            && front[j].member@ == member) by {
            assert(front[j] == log[j]);
        }
        lemma_score_missing(front, set, member);
    }
}

proof fn lemma_score_listed(log: Seq<StoredScore>, set: Seq<char>, member: Seq<char>) -> (i: int)
    requires
        scores_of(log).dom().contains((set, member)),
    ensures
        0 <= i < log.len(),
        log[i].set@ == set,
        log[i].member@ == member,
    decreases log.len(),
{
    if log.len() == 0 {
        0
    } else if log.last().set@ == set && log.last().member@ == member {
        log.len() - 1
    } else {
        lemma_score_listed(log.drop_last(), set, member)
    }
}

proof fn lemma_score_logged(log: Seq<StoredScore>, i: int)
    requires
        0 <= i < log.len(),
    ensures
        scores_of(log).dom().contains((log[i].set@, log[i].member@)),
    decreases log.len(),
{
    if i < log.len() - 1 {
        assert(log.drop_last()[i] == log[i]);
        lemma_score_logged(log.drop_last(), i);
    }
}

/// What a list holds after one more item.
proof fn lemma_pushed(before: Seq<Seq<char>>, item: Seq<char>)
    ensures
        forall|k: Seq<char>| #[trigger]
            before.push(item).contains(k) <==> before.contains(k) || k == item,
        before.no_duplicates() && !before.contains(item) ==> before.push(item).no_duplicates(),
{
    let after = before.push(item);
    assert forall|k: Seq<char>| #[trigger] after.contains(k) <==> before.contains(k) || k
        == item by {
        if after.contains(k) {
            let at = choose|at: int| 0 <= at < after.len() && after[at] == k;
            if at < before.len() {
                assert(before[at] == k);
            }
        }
        if before.contains(k) {
            let at = choose|at: int| 0 <= at < before.len() && before[at] == k;
            assert(after[at] == k);
        }
        if k == item {
            assert(after[before.len() as int] == k);
        }
    }
    if before.no_duplicates() && !before.contains(item) {
        assert forall|a: int, b: int|
            0 <= a < after.len() && 0 <= b < after.len() && a != b implies after[a]
            != after[b] by {
            if a < before.len() && b < before.len() {
                assert(before[a] != before[b]);
            } else if a < before.len() {
                assert(before.contains(before[a]));
            } else {
                assert(before.contains(before[b]));
            }
        }
    }
}

impl View for MemoryBackend {
    type V = BackendState;

    closed spec fn view(&self) -> BackendState {
        BackendState {
            entries: entries_of(self.entries@),
            scores: scores_of(self.scores@),
            journal: keys_of(self.entries@),
        }
    }
}

/// The cursor that a step of a walk hands back, on a backend whose walks pass
/// `len` keys, `width` of them in each step: the cursor behind the keys that
/// the step passes, or `0` where the step comes to the end of the walk.
pub open spec fn turned(len: nat, width: nat, cursor: u64) -> u64 {
    if cursor > len || len - cursor <= width {
        0
    } else {
        (cursor + width) as u64
    }
}

impl MemoryBackend {
    /// How many entries a step of a walk passes: at least one.
    pub closed spec fn page_width(&self) -> nat {
        if self.page == 0 {
            1
        } else {
            self.page as nat
        }
    }

    /// A backend that holds nothing. A step of a walk passes 64 entries.
    pub fn new() -> (r: MemoryBackend)
        ensures
            r@ == BackendState::empty(),
            r.page_width() == 64,
    {
        let r = MemoryBackend { entries: Vec::new(), scores: Vec::new(), page: 64 };
        assert(r@.journal =~= Seq::empty());
        r
    }

    /// A backend that holds nothing, and whose walks pass `page` entries in
    /// each step, or one where `page` is zero.
    pub fn with_page_size(page: usize) -> (r: MemoryBackend)
        ensures
            r@ == BackendState::empty(),
            r.page_width() == if page == 0 {
                1
            } else {
                page as nat
            },
    {
        let r = MemoryBackend { entries: Vec::new(), scores: Vec::new(), page };
        assert(r@.journal =~= Seq::empty());
        r
    }

    /// A walk passes every key that holds something.
    pub proof fn lemma_well_formed(&self)
        ensures
            self@.wf(),
    {
        assert forall|k: Seq<char>| self@.entries.dom().contains(k) implies #[trigger] self@.journal.contains(
            k,
        ) by {
            let i = lemma_entry_listed(self.entries@, k);
            assert(self@.journal[i] == k);
        }
    }

    /// What a key holds at the given time: the newest entry for the key, if
    /// its time has not come.
    fn content(&self, key: &String, now: u64) -> (r: Option<Vec<u8>>)
        ensures
            match r {
                Some(bytes) => self@.content(key@, now) == Some(bytes@),
                None => self@.content(key@, now) is None,
            },
    {
        let mut i: usize = self.entries.len();
        while i > 0
            invariant
                i <= self.entries.len(),
                forall|j: int|
                    i <= j < self.entries@.len() ==> self.entries@[j].key@ != key@
                        || self.entries@[j].gone,
            decreases i,
        {
            i -= 1;
            if self.entries[i].key == *key && !self.entries[i].gone {
                proof {
                    lemma_entry_found(self.entries@, i as int, key@);
                }
                if now < self.entries[i].expires_at {
                    return Some(slice_to_vec(self.entries[i].value.as_slice()));
                } else {
                    return None;
                }
            }
        }
        proof {
            lemma_entry_missing(self.entries@, key@);
        }
        None
    }

    /// The score of a member of a set: the newest one.
    fn score(&self, set: &String, member: &String) -> (r: Option<u64>)
        ensures
            r == self@.score(set@, member@),
    {
        let mut i: usize = self.scores.len();
        while i > 0
            invariant
                i <= self.scores.len(),
                forall|j: int|
                    i <= j < self.scores@.len() ==> !(self.scores@[j].set@ == set@
                        && self.scores@[j].member@ == member@),
            decreases i,
        {
            i -= 1;
            if self.scores[i].set == *set && self.scores[i].member == *member {
                proof {
                    lemma_score_found(self.scores@, i as int, set@, member@);
                }
                return Some(self.scores[i].score);
            }
        }
        proof {
            lemma_score_missing(self.scores@, set@, member@);
        }
        None
    }

    fn value(&self, key: &String, now: u64) -> (r: RawValue)
        ensures
            r.reports(self@.content(key@, now)),
    {
        match self.content(key, now) {
            Some(bytes) => RawValue::Bulk(bytes),
            None => RawValue::Nil,
        }
    }

    fn values(&self, keys: &Vec<String>, now: u64) -> (r: Vec<RawValue>)
        ensures
            r@.len() == keys@.len(),
            forall|i: int|
                0 <= i < keys@.len() ==> (#[trigger] r@[i]).reports(self@.content(keys@[i]@, now)),
    {
        let mut out: Vec<RawValue> = Vec::new();
        let mut i: usize = 0;
        while i < keys.len()
            invariant
                i <= keys.len(),
                out@.len() == i,
                forall|j: int|
                    0 <= j < i ==> (#[trigger] out@[j]).reports(self@.content(keys@[j]@, now)),
            decreases keys.len() - i,
        {
            out.push(self.value(&keys[i], now));
            i += 1;
        }
        out
    }

    fn scan(&self, prefix: &String, cursor: u64, now: u64) -> (r: (u64, Vec<String>))
        ensures
            self@.steps(prefix@, now, cursor, r.0, texts(r.1@)),
            r.0 == turned(self@.journal.len(), self.page_width(), cursor),
    {
        let mut out: Vec<String> = Vec::new();
        let len = self.entries.len();
        if cursor > len as u64 {
            return (0, out);
        }
        let start = cursor as usize;
        let width = if self.page == 0 {
            1
        } else {
            self.page
        };
        let end = if len - start <= width {
            len
        } else {
            start + width
        };
        let prefix_len = prefix.as_str().unicode_len();
        let mut i: usize = start;
        while i < end
            invariant
                start <= i <= end <= self.entries.len(),
                prefix_len == prefix@.len(),
                forall|k: Seq<char>|
                    #![trigger texts(out@).contains(k)]
                    texts(out@).contains(k) ==> self@.passes(start as int, i as int, k)
                        && self@.live(k, now) && prefix@.is_prefix_of(k),
                forall|j: int|
                    start <= j < i && self@.live(self.entries@[j].key@, now)
                        && prefix@.is_prefix_of(
                        self.entries@[j].key@,
                    ) ==> texts(out@).contains(#[trigger] self.entries@[j].key@),
            decreases end - i,
        {
            let key = &self.entries[i].key;
            let key_len = key.as_str().unicode_len();
            let starts = key_len >= prefix_len && key.as_str().substring_char(
                0,
                prefix_len,
            ).to_owned() == *prefix;
            proof {
                assert(self@.journal[i as int] == key@);
                assert forall|k: Seq<char>| self@.passes(start as int, i as int, k) implies self@.passes(
                    start as int,
                    i + 1,
                    k,
                ) by {
                    let at = choose|at: int|
                        start <= at < i && 0 <= at < self@.journal.len() && #[trigger] self@.journal[at]
                            == k;
                    assert(self@.journal[at] == k);
                }
                assert(self@.passes(start as int, i + 1, key@));
            }
            if starts && self.content(key, now).is_some() {
                let ghost before = texts(out@);
                out.push(key.clone());
                proof {
                    assert(texts(out@) =~= before.push(key@));
                    lemma_pushed(before, key@);
                }
            }
            i += 1;
        }
        let next = if end == len {
            0
        } else {
            end as u64
        };
        proof {
            let upto = if next == 0 {
                self@.journal.len() as int
            } else {
                next as int
            };
            assert(upto == end);
            assert forall|k: Seq<char>| #[trigger]
                texts(out@).contains(k) <==> self@.passes(cursor as int, upto, k) && self@.live(
                    k,
                    now,
                ) && prefix@.is_prefix_of(k) by {
                if self@.passes(cursor as int, upto, k) && self@.live(k, now)
                    && prefix@.is_prefix_of(k) {
                    let at = choose|at: int|
                        cursor <= at < upto && 0 <= at < self@.journal.len() && #[trigger] self@.journal[at]
                            == k;
                    assert(self.entries@[at].key@ == k);
                    assert(texts(out@).contains(self.entries@[at].key@));
                }
            }
        }
        (next, out)
    }

    fn range(&self, set: &String, above: u64) -> (r: Vec<String>)
        ensures
            texts(r@).no_duplicates(),
            forall|m: Seq<char>|
                #![trigger texts(r@).contains(m)]
                texts(r@).contains(m) <==> self@.scores.dom().contains((set@, m))
                    && self@.scores[(set@, m)] > above,
    {
        let mut out: Vec<String> = Vec::new();
        let mut i: usize = 0;
        while i < self.scores.len()
            invariant
                i <= self.scores.len(),
                texts(out@).no_duplicates(),
                forall|m: Seq<char>|
                    #![trigger texts(out@).contains(m)]
                    texts(out@).contains(m) ==> self@.scores.dom().contains((set@, m))
                        && self@.scores[(set@, m)] > above,
                forall|j: int|
                    0 <= j < i && self.scores@[j].set@ == set@ && self@.scores[(
                        set@,
                        self.scores@[j].member@,
                    )] > above ==> texts(out@).contains(#[trigger] self.scores@[j].member@),
            decreases self.scores.len() - i,
        {
            let member = &self.scores[i].member;
            proof {
                lemma_score_logged(self.scores@, i as int);
            }
            let wanted = self.scores[i].set == *set && match self.score(set, member) {
                Some(s) => s > above,
                None => false,
            };
            if wanted && !contains_text(&out, member) {
                let ghost before = texts(out@);
                out.push(member.clone());
                proof {
                    assert(texts(out@) =~= before.push(member@));
                    lemma_pushed(before, member@);
                }
            }
            i += 1;
        }
        proof {
            assert forall|m: Seq<char>|
                #![trigger texts(out@).contains(m)]
                self@.scores.dom().contains((set@, m)) && self@.scores[(set@, m)]
                    > above implies texts(out@).contains(m) by {
                let j = lemma_score_listed(self.scores@, set@, m);
                assert(texts(out@).contains(self.scores@[j].member@));
            }
        }
        out
    }

    fn write(&mut self, w: Write, now: u64)
        ensures
            final(self)@ == old(self)@.after_write(w, now),
            final(self).page_width() == old(self).page_width(),
    {
        match w {
            Write::Put { key, value, ttl } => {
                let ghost before = self.entries@;
                self.entries.push(
                    StoredEntry { key, value, expires_at: expire_time(now, ttl), gone: false },
                );
                assert(self.entries@.drop_last() =~= before);
                assert(keys_of(self.entries@) =~= keys_of(before).push(key@));
            },
            Write::SortedSetAdd { set, member, score } => {
                let ghost before = self.scores@;
                self.scores.push(StoredScore { set, member, score });
                assert(self.scores@.drop_last() =~= before);
            },
            Write::Delete { key } => {
                self.strike(&key);
            },
            Write::SortedSetRemove { set, member } => {
                self.drop_member(&set, &member);
            },
        }
    }

    /// Strikes out every entry of a key.
    fn strike(&mut self, key: &String)
        ensures
            final(self)@.entries == old(self)@.entries.remove(key@),
            final(self)@.journal == old(self)@.journal,
            final(self)@.scores == old(self)@.scores,
            final(self).page_width() == old(self).page_width(),
    {
        let mut kept: Vec<StoredEntry> = Vec::new();
        let mut i: usize = 0;
        proof {
            assert(self.entries@.take(0) =~= Seq::empty());
            assert(entries_of(kept@) =~= entries_of(self.entries@.take(0)).remove(key@));
            assert(keys_of(kept@) =~= keys_of(self.entries@.take(0)));
        }
        while i < self.entries.len()
            invariant
                i <= self.entries.len(),
                entries_of(kept@) == entries_of(self.entries@.take(i as int)).remove(key@),
                keys_of(kept@) == keys_of(self.entries@.take(i as int)),
            decreases self.entries.len() - i,
        {
            let entry = &self.entries[i];
            let struck = entry.gone || entry.key == *key;
            let ghost before = entries_of(self.entries@.take(i as int));
            let ghost old_kept = kept@;
            proof {
                let upto = self.entries@.take(i + 1);
                assert(upto.drop_last() =~= self.entries@.take(i as int));
                assert(upto.last() == self.entries@[i as int]);
            }
            kept.push(
                StoredEntry {
                    key: entry.key.clone(),
                    value: slice_to_vec(entry.value.as_slice()),
                    expires_at: entry.expires_at,
                    gone: struck,
                },
            );
            proof {
                let held = Entry { value: entry.value@, expires_at: entry.expires_at };
                assert(kept@.drop_last() =~= old_kept);
                assert(keys_of(kept@) =~= keys_of(old_kept).push(entry.key@));
                assert(keys_of(self.entries@.take(i + 1)) =~= keys_of(
                    self.entries@.take(i as int),
                ).push(entry.key@));
                if entry.gone {
                } else if entry.key@ == key@ {
                    assert(before.insert(entry.key@, held).remove(key@) =~= before.remove(key@));
                } else {
                    assert(before.insert(entry.key@, held).remove(key@) =~= before.remove(
                        key@,
                    ).insert(entry.key@, held));
                }
            }
            i += 1;
        }
        proof {
            assert(self.entries@.take(self.entries@.len() as int) =~= self.entries@);
        }
        self.entries = kept;
    }

    /// Takes a member out of a set.
    fn drop_member(&mut self, set: &String, member: &String)
        ensures
            final(self)@.entries == old(self)@.entries,
            final(self)@.journal == old(self)@.journal,
            final(self)@.scores == old(self)@.scores.remove((set@, member@)),
            final(self).page_width() == old(self).page_width(),
    {
        let mut kept: Vec<StoredScore> = Vec::new();
        let mut i: usize = 0;
        proof {
            assert(self.scores@.take(0) =~= Seq::empty());
            assert(scores_of(kept@) =~= scores_of(self.scores@.take(0)).remove((set@, member@)));
        }
        while i < self.scores.len()
            invariant
                i <= self.scores.len(),
                scores_of(kept@) == scores_of(self.scores@.take(i as int)).remove(
                    (set@, member@),
                ),
            decreases self.scores.len() - i,
        {
            let entry = &self.scores[i];
            let ghost before = scores_of(self.scores@.take(i as int));
            let ghost this = (entry.set@, entry.member@);
            let ghost old_kept = kept@;
            proof {
                let upto = self.scores@.take(i + 1);
                assert(upto.drop_last() =~= self.scores@.take(i as int));
                assert(upto.last() == self.scores@[i as int]);
            }
            if entry.set == *set && entry.member == *member {
                proof {
                    assert(before.insert(this, entry.score).remove((set@, member@))
                        =~= before.remove((set@, member@)));
                }
            } else {
                kept.push(
                    StoredScore {
                        set: entry.set.clone(),
                        member: entry.member.clone(),
                        score: entry.score,
                    },
                );
                proof {
                    assert(kept@.drop_last() =~= old_kept);
                    assert(before.insert(this, entry.score).remove((set@, member@))
                        =~= before.remove((set@, member@)).insert(this, entry.score));
                }
            }
            i += 1;
        }
        proof {
            assert(self.scores@.take(self.scores@.len() as int) =~= self.scores@);
        }
        self.scores = kept;
    }

    fn write_all(&mut self, ws: Vec<Write>, now: u64)
        ensures
            final(self)@ == old(self)@.after_writes(ws@, now),
            final(self).page_width() == old(self).page_width(),
    {
        proof {
            assert(ws@.take(0) =~= Seq::empty());
        }
        for w in it: ws
            invariant
                it.seq() == ws@,
                self@ == old(self)@.after_writes(ws@.take(it.index() as int), now),
                self.page_width() == old(self).page_width(),
        {
            proof {
                let upto = ws@.take(it.index() + 1);
                assert(upto.drop_last() =~= ws@.take(it.index() as int));
                assert(upto.last() == w);
            }
            self.write(w, now);
        }
        proof {
            assert(ws@.take(ws@.len() as int) =~= ws@);
        }
    }

    fn purge(&mut self, set: &String, up_to: u64)
        ensures
            final(self)@.entries == old(self)@.entries,
            final(self)@.journal == old(self)@.journal,
            final(self)@.scores == old(self)@.scores.remove_keys(old(self)@.lapsed(set@, up_to)),
            final(self).page_width() == old(self).page_width(),
    {
        let ghost gone = self@.lapsed(set@, up_to);
        let mut kept: Vec<StoredScore> = Vec::new();
        let mut i: usize = 0;
        proof {
            assert(self.scores@.take(0) =~= Seq::empty());
            assert(scores_of(kept@) =~= scores_of(self.scores@.take(0)).remove_keys(gone));
        }
        while i < self.scores.len()
            invariant
                i <= self.scores.len(),
                gone == self@.lapsed(set@, up_to),
                scores_of(kept@) == scores_of(self.scores@.take(i as int)).remove_keys(gone),
            decreases self.scores.len() - i,
        {
            let entry = &self.scores[i];
            proof {
                lemma_score_logged(self.scores@, i as int);
                let upto = self.scores@.take(i + 1);
                assert(upto.drop_last() =~= self.scores@.take(i as int));
                assert(upto.last() == self.scores@[i as int]);
            }
            let lapsed = entry.set == *set && match self.score(&entry.set, &entry.member) {
                Some(s) => s <= up_to,
                None => false,
            };
            let ghost before = scores_of(self.scores@.take(i as int));
            let ghost key = (entry.set@, entry.member@);
            if lapsed {
                proof {
                    assert(gone.contains(key));
                    assert(before.insert(key, entry.score).remove_keys(gone) =~= before.remove_keys(
                        gone,
                    ));
                }
            } else {
                let ghost old_kept = kept@;
                kept.push(
                    StoredScore {
                        set: entry.set.clone(),
                        member: entry.member.clone(),
                        score: entry.score,
                    },
                );
                proof {
                    assert(kept@.drop_last() =~= old_kept);
                    assert(!gone.contains(key));
                    assert(before.insert(key, entry.score).remove_keys(gone) =~= before.remove_keys(
                        gone,
                    ).insert(key, entry.score));
                }
            }
            i += 1;
        }
        proof {
            assert(self.scores@.take(self.scores@.len() as int) =~= self.scores@);
        }
        self.scores = kept;
    }

    /// Carries out a command at the given time and answers it, as the model
    /// says. A step of a walk passes as many entries as the backend was made
    /// for, or what is left of the walk.
    pub fn respond(&mut self, command: Command, now: u64) -> (reply: Reply)
        ensures
            old(self)@.answers(command, now, reply),
            final(self)@ == old(self)@.after(command, now),
            final(self).page_width() == old(self).page_width(),
            command matches Command::ScanMatch { cursor, .. } ==> reply matches Reply::Page {
                cursor: next,
                ..
            } && next == turned(old(self)@.journal.len(), old(self).page_width(), cursor),
    {
        match command {
            Command::Ping => Reply::Done,
            Command::Exists { key } => Reply::Flag(self.content(&key, now).is_some()),
            Command::Get { key } => Reply::Value(self.value(&key, now)),
            Command::MultiGet { keys } => Reply::Values(self.values(&keys, now)),
            Command::ScanMatch { prefix, cursor } => {
                let (next, keys) = self.scan(&prefix, cursor, now);
                Reply::Page { cursor: next, keys }
            },
            Command::SortedSetScoreOf { set, member } => Reply::Score(self.score(&set, &member)),
            Command::SortedSetRangeByScore { set, above } => Reply::Members(
                self.range(&set, above),
            ),
            Command::SortedSetRemoveByScore { set, up_to } => {
                self.purge(&set, up_to);
                Reply::Done
            },
            Command::Write(w) => {
                self.write(w, now);
                Reply::Done
            },
            Command::Pipeline(ws) => {
                self.write_all(ws, now);
                Reply::Done
            },
        }
    }

    /// Runs an operation to its end: performs each command that the task
    /// sends, at the time `now`, and hands back the result. Upstream is not
    /// there: a task that asks it learns that the fetch failed.
    pub fn execute(&mut self, storage: &Storage, task: Task, action: Action, now: u64) -> (result:
        Result<Outcome, StoreError>)
        ensures
            exists|steps: nat|
                storage.runs(task, action, old(self)@, now, steps, final(self)@, result),
            final(self).page_width() == old(self).page_width(),
    {
        self.execute_with(storage, task, action, now, Upstream::Failed)
    }

    /// Runs an operation to its end, with an upstream that says `upstream`
    /// the first time it is asked and fails every time after.
    pub fn execute_with(
        &mut self,
        storage: &Storage,
        task: Task,
        action: Action,
        now: u64,
        upstream: Upstream,
    ) -> (result: Result<Outcome, StoreError>)
        ensures
            exists|steps: nat|
                storage.runs(task, action, old(self)@, now, steps, final(self)@, result),
            final(self).page_width() == old(self).page_width(),
    {
        let mut current = task;
        let mut doing = action;
        let mut upstream = upstream;
        let ghost sent: nat = 0;
        loop
            invariant
                self.page_width() == old(self).page_width(),
                forall|k: nat, end: BackendState, r: Result<Outcome, StoreError>| #[trigger]
                    storage.runs(current, doing, self@, now, k, end, r) ==> storage.runs(
                        task,
                        action,
                        old(self)@,
                        now,
                        k + sent,
                        end,
                        r,
                    ),
            decreases
                    Storage::pages_ahead(current, doing, self@.journal.len()),
                    current.rank(),
                    (if doing is Finish { 0nat } else { 1nat }),
        {
            match doing {
                Action::Finish(result) => {
                    proof {
                        assert(storage.runs(
                            current,
                            Action::Finish(result),
                            self@,
                            now,
                            0,
                            self@,
                            result,
                        ));
                        assert(storage.runs(
                            task,
                            action,
                            old(self)@,
                            now,
                            0 + sent,
                            self@,
                            result,
                        ));
                    }
                    return result;
                },
                Action::Send(command) => {
                    let ghost before = self@;
                    let ghost waiting = current;
                    let reply = self.respond(command, now);
                    let (next, following) = storage.resume(current, reply);
                    proof {
                        storage.lemma_resume_descends(
                            waiting,
                            command,
                            before,
                            now,
                            reply,
                            next,
                            following,
                        );
                        assert forall|k: nat, end: BackendState, r: Result<Outcome, StoreError>| #[trigger]
                            storage.runs(next, following, self@, now, k, end, r) implies storage.runs(
                            task,
                            action,
                            old(self)@,
                            now,
                            k + sent + 1,
                            end,
                            r,
                        ) by {
                            assert(storage.resumes(waiting, reply, next, following));
                            assert(storage.runs(
                                waiting,
                                Action::Send(command),
                                before,
                                now,
                                (k + 1) as nat,
                                end,
                                r,
                            ));
                        }
                        sent = sent + 1;
                    }
                    current = next;
                    doing = following;
                },
                Action::Fetch(id) => {
                    let ghost waiting = current;
                    let answer = upstream;
                    upstream = Upstream::Failed;
                    let (next, following) = storage.fetched(current, answer);
                    proof {
                        storage.lemma_fetch_descends(
                            waiting,
                            id,
                            answer,
                            next,
                            following,
                            self@.journal.len(),
                        );
                        assert forall|k: nat, end: BackendState, r: Result<Outcome, StoreError>| #[trigger]
                            storage.runs(next, following, self@, now, k, end, r) implies storage.runs(
                            task,
                            action,
                            old(self)@,
                            now,
                            k + sent + 1,
                            end,
                            r,
                        ) by {
                            assert(storage.fetches(waiting, answer, next, following));
                            assert(storage.runs(
                                waiting,
                                Action::Fetch(id),
                                self@,
                                now,
                                (k + 1) as nat,
                                end,
                                r,
                            ));
                        }
                        sent = sent + 1;
                    }
                    current = next;
                    doing = following;
                },
            }
        }
    }
}

} // verus!
