//! Whole operations against the model of the backend.
//!
//! [`Storage::runs`] follows a task from its first action to its result,
//! letting the backend answer each command truly and upstream answer as it
//! likes. The theorems of
//! [`crate::laws`] and [`crate::migrate_laws`] say, for every such run, what
//! the result is and what the backend holds afterwards.

use vstd::prelude::*;
use crate::backend::{BackendState, Command, Entry, Reply};
use crate::cache::{Action, Outcome, Storage, StoreError, Task, Upstream};
use crate::codec::Generation;
use crate::ident::{hyphenated, PlayerId};
use crate::keys::{key_text, lapse, UNKNOWN_SET_KEY};

verus! {

impl Storage {
    /// Whether a task that shows `action` can end with `result` and leave the
    /// backend as `end`, having started on a backend that holds `state`, when
    /// every command is answered truly at the time `now`, upstream gives some
    /// answer where it is asked, and at most `steps` commands and questions
    /// are sent.
    pub open spec fn runs(
        self,
        task: Task,
        action: Action,
        state: BackendState,
        now: u64,
        steps: nat,
        end: BackendState,
        result: Result<Outcome, StoreError>,
    ) -> bool
        decreases steps,
    {
        match action {
            Action::Finish(r) => r == result && end == state,
            Action::Send(cmd) => steps > 0 && exists|reply: Reply, next: Task, following: Action|
                #[trigger] self.resumes(task, reply, next, following) && state.answers(
                    cmd,
                    now,
                    reply,
                ) && self.runs(
                    next,
                    following,
                    state.after(cmd, now),
                    now,
                    (steps - 1) as nat,
                    end,
                    result,
                ),
            Action::Fetch(_) => steps > 0 && exists|
                answer: Upstream,
                next: Task,
                following: Action,
            |
                #[trigger] self.fetches(task, answer, next, following) && self.runs(
                    next,
                    following,
                    state,
                    now,
                    (steps - 1) as nat,
                    end,
                    result,
                ),
        }
    }

    /// The backend with a profile stored for a player at the time `now`.
    pub open spec fn with_profile(
        self,
        state: BackendState,
        uuid: PlayerId,
        record: Seq<u8>,
        now: u64,
    ) -> BackendState {
        BackendState {
            entries: state.entries.insert(
                key_text(Generation::Current, uuid),
                Entry { value: record, expires_at: lapse(now, self.profile_ttl) },
            ),
            journal: state.journal.push(key_text(Generation::Current, uuid)),
            ..state
        }
    }

    /// The backend with a player marked as unknown at the time `now`.
    pub open spec fn with_unknown(self, state: BackendState, uuid: PlayerId, now: u64) -> BackendState {
        BackendState {
            scores: state.scores.insert(
                (UNKNOWN_SET_KEY@, hyphenated(uuid.0)),
                lapse(now, self.unknown_ttl),
            ),
            ..state
        }
    }

    /// The backend with a profile recorded for a player at the time `now`:
    /// the profile is stored, and the player is no member of the unknown-set.
    pub open spec fn records_profile(
        self,
        state: BackendState,
        uuid: PlayerId,
        record: Seq<u8>,
        now: u64,
    ) -> BackendState {
        BackendState {
            scores: state.scores.remove((UNKNOWN_SET_KEY@, hyphenated(uuid.0))),
            ..self.with_profile(state, uuid, record, now)
        }
    }

    /// The backend with a player recorded as unknown at the time `now`: the
    /// player is marked, and the player's key holds nothing.
    pub open spec fn records_unknown(self, state: BackendState, uuid: PlayerId, now: u64) -> BackendState {
        BackendState {
            entries: state.entries.remove(key_text(Generation::Current, uuid)),
            ..self.with_unknown(state, uuid, now)
        }
    }

    /// What a batch that stores a profile does to the backend.
    pub proof fn lemma_stores(
        self,
        action: Action,
        state: BackendState,
        uuid: PlayerId,
        record: Seq<u8>,
        now: u64,
    )
        requires
            action.stores(uuid, record, self.profile_ttl),
        ensures
            state.after(action->Send_0, now) == self.records_profile(state, uuid, record, now),
    {
        let ws = action->Send_0->Pipeline_0@;
        let first = ws.drop_last();
        assert(first.drop_last() =~= Seq::empty());
        assert(first.last() == ws[0]);
        assert(ws.last() == ws[1]);
        let none = first.drop_last();
        assert(state.after_writes(none, now) == state);
        assert(state.after_writes(first, now) == state.after_writes(none, now).after_write(
            ws[0],
            now,
        ));
        assert(state.after_writes(ws, now) == state.after_writes(first, now).after_write(
            ws[1],
            now,
        ));
        let end = state.after(action->Send_0, now);
        let want = self.records_profile(state, uuid, record, now);
        assert(end.entries =~= want.entries);
        assert(end.scores =~= want.scores);
    }

    /// What a batch that marks a player as unknown does to the backend.
    pub proof fn lemma_marks(self, action: Action, state: BackendState, uuid: PlayerId, now: u64)
        requires
            action.marks(uuid, lapse(now, self.unknown_ttl)),
        ensures
            state.after(action->Send_0, now) == self.records_unknown(state, uuid, now),
    {
        let ws = action->Send_0->Pipeline_0@;
        let first = ws.drop_last();
        assert(first.drop_last() =~= Seq::empty());
        assert(first.last() == ws[0]);
        assert(ws.last() == ws[1]);
        let none = first.drop_last();
        assert(state.after_writes(none, now) == state);
        assert(state.after_writes(first, now) == state.after_writes(none, now).after_write(
            ws[0],
            now,
        ));
        assert(state.after_writes(ws, now) == state.after_writes(first, now).after_write(
            ws[1],
            now,
        ));
        let end = state.after(action->Send_0, now);
        let want = self.records_unknown(state, uuid, now);
        assert(end.entries =~= want.entries);
        assert(end.scores =~= want.scores);
    }

    /// One step of a run: the reply that the backend gave, and where the task
    /// went with it.
    pub proof fn lemma_run_step(
        self,
        task: Task,
        cmd: Command,
        state: BackendState,
        now: u64,
        steps: nat,
        end: BackendState,
        result: Result<Outcome, StoreError>,
    ) -> (w: (Reply, Task, Action))
        requires
            self.runs(task, Action::Send(cmd), state, now, steps, end, result),
        ensures
            steps > 0,
            self.resumes(task, w.0, w.1, w.2),
            state.answers(cmd, now, w.0),
            self.runs(w.1, w.2, state.after(cmd, now), now, (steps - 1) as nat, end, result),
    {
        choose|reply: Reply, next: Task, following: Action|
            #[trigger] self.resumes(task, reply, next, following) && state.answers(cmd, now, reply)
                && self.runs(
                next,
                following,
                state.after(cmd, now),
                now,
                (steps - 1) as nat,
                end,
                result,
            )
    }

    /// One step of a run in which upstream is asked: what upstream said, and
    /// where the task went with it.
    pub proof fn lemma_run_fetch(
        self,
        task: Task,
        id: PlayerId,
        state: BackendState,
        now: u64,
        steps: nat,
        end: BackendState,
        result: Result<Outcome, StoreError>,
    ) -> (w: (Upstream, Task, Action))
        requires
            self.runs(task, Action::Fetch(id), state, now, steps, end, result),
        ensures
            steps > 0,
            self.fetches(task, w.0, w.1, w.2),
            self.runs(w.1, w.2, state, now, (steps - 1) as nat, end, result),
    {
        choose|answer: Upstream, next: Task, following: Action|
            #[trigger] self.fetches(task, answer, next, following) && self.runs(
                next,
                following,
                state,
                now,
                (steps - 1) as nat,
                end,
                result,
            )
    }

    /// The end of a run: the result is the one the last action carries, and
    /// the backend is as the last command left it.
    pub proof fn lemma_run_end(
        self,
        task: Task,
        r: Result<Outcome, StoreError>,
        state: BackendState,
        now: u64,
        steps: nat,
        end: BackendState,
        result: Result<Outcome, StoreError>,
    )
        requires
            self.runs(task, Action::Finish(r), state, now, steps, end, result),
        ensures
            r == result,
            end == state,
    {
    }

    /// How many pages a task may still ask for, at most, on a backend whose
    /// walk passes `len` keys.
    pub open spec fn pages_ahead(task: Task, action: Action, len: nat) -> nat {
        match action {
            Action::Send(Command::ScanMatch { cursor, .. }) => if (task is Scan
                || task is MigrateScan) && cursor <= len {
                (len - cursor + 1) as nat
            } else {
                0
            },
            Action::Send(_) => match task {
                Task::Fetch { next, .. } | Task::MigrateFetch { next, .. } => if 0 < next <= len {
                    (len - next + 1) as nat
                } else {
                    0
                },
                _ => 0,
            },
            Action::Fetch(_) | Action::Finish(_) => 0,
        }
    }

    /// Every true answer brings a task nearer to its end: unless the task is
    /// over, it may ask for fewer pages than before, or for as many and is of
    /// a lower rank. The keys that a walk passes stay as they are meanwhile.
    pub proof fn lemma_resume_descends(
        self,
        task: Task,
        cmd: Command,
        state: BackendState,
        now: u64,
        reply: Reply,
        next: Task,
        following: Action,
    )
        requires
            state.answers(cmd, now, reply),
            self.resumes(task, reply, next, following),
        ensures
            following is Finish ==> next == Task::Finished,
            !(following is Finish) ==> state.after(cmd, now).journal == state.journal && ({
                let len = state.journal.len();
                let before = Self::pages_ahead(task, Action::Send(cmd), len);
                let after = Self::pages_ahead(next, following, len);
                after < before || (after == before && next.rank() < task.rank())
            }),
    {
    }

    /// Every answer from upstream brings a task nearer to its end, too.
    pub proof fn lemma_fetch_descends(
        self,
        task: Task,
        id: PlayerId,
        answer: Upstream,
        next: Task,
        following: Action,
        len: nat,
    )
        requires
            self.fetches(task, answer, next, following),
        ensures
            following is Finish ==> next == Task::Finished,
            !(following is Finish) ==> Self::pages_ahead(next, following, len) == 0
                && Self::pages_ahead(task, Action::Fetch(id), len) == 0 && next.rank()
                < task.rank(),
    {
    }
}

} // verus!
