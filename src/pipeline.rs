use vstd::prelude::*;

verus! {

/// Where one inbound event of an invocation stands.
#[derive(Clone, Copy, Debug, PartialEq, Eq, Structural)]
pub enum ItemStatus {
    /// Not yet offered to the session.
    Pending,
    /// Submitted; its acknowledgment handle has not resolved yet.
    InFlight,
    /// Its acknowledgment handle resolved successfully: durably ingested.
    Acked,
    /// Encoding, submission or acknowledgment failed.
    Failed,
}

/// How an invocation ended.
#[derive(Clone, Copy, Debug, PartialEq, Eq, Structural)]
pub enum Outcome {
    /// Every event was handled and the session closed cleanly.
    Completed,
    /// The session could not be opened; nothing was ingested.
    OpenFailed,
    /// Closing failed. `replayed` records of the unacknowledged backlog were
    /// acknowledged by the replacement session and `lost` were not (both zero
    /// when the backlog was empty and no replay was needed).
    CloseFailed { replayed: usize, lost: usize },
    /// Closing failed and the unacknowledged backlog could not be fetched.
    RecoveryFetchFailed,
    /// Closing failed and the replacement session could not be opened.
    RecoveryOpenFailed,
    /// The invocation's deadline came first; the session was abandoned.
    Abandoned,
}

/// What the caller must do next on behalf of the invocation.
#[derive(Clone, Copy, Debug, PartialEq, Eq, Structural)]
pub enum Action {
    /// Open a session with the stream configuration.
    Open,
    /// Encode event `i` and submit the record to the session.
    Submit(usize),
    /// Await the acknowledgment handle of event `i`.
    AwaitAck(usize),
    /// Close the session.
    Close,
    /// Ask the failed session for its unacknowledged records.
    FetchUnacked,
    /// Open a replacement session with the same stream configuration.
    OpenReplacement,
    /// Submit record `j` of the unacknowledged backlog to the replacement session.
    Resubmit(usize),
    /// Await the acknowledgment handle of backlog record `j`.
    AwaitReplayAck(usize),
    /// The invocation is over.
    Finish(Outcome),
}

/// The result of the action last asked for.
#[derive(Clone, Copy, Debug, PartialEq, Eq, Structural)]
pub enum Event {
    /// The action succeeded.
    Succeeded,
    /// The action failed (for `Submit`: encoding or submission failed).
    Failed,
    /// The answer to `FetchUnacked`: the backlog holds this many records.
    Unacked(usize),
}

/// Failure reported at the invocation boundary.
#[derive(Clone, Copy, Debug, PartialEq, Eq, Structural)]
pub enum InvocationError {
    /// The session could not be opened.
    StreamOpen,
    /// Closing failed; the backlog, if any, was replayed with this result.
    Close { replayed: usize, lost: usize },
    /// Closing failed and recovery could not fetch the backlog.
    RecoveryFetch,
    /// Closing failed and recovery could not open a replacement session.
    RecoveryOpen,
    /// The deadline came before the invocation could finish.
    DeadlineExceeded,
}

/// The state of one invocation: a session's lifecycle, the status of each
/// event, the records in flight and, after a failed close, the replay of the
/// unacknowledged backlog.
pub struct Invocation {
    /// Most records outstanding on a session at once.
    pub max_inflight: usize,
    /// Status of each event, by position in the invocation.
    pub status: Vec<ItemStatus>,
    /// Events `0 .. next` have been offered to the session.
    pub next: usize,
    /// Events submitted and not yet acknowledged, oldest first.
    pub inflight: Vec<usize>,
    /// Size of the unacknowledged backlog fetched after a failed close.
    pub unacked: usize,
    /// Backlog records `0 .. replay_next` have been offered to the replacement.
    pub replay_next: usize,
    /// Backlog records resubmitted and not yet acknowledged, oldest first.
    pub replay_inflight: Vec<usize>,
    /// Backlog records acknowledged by the replacement session.
    pub replay_acked: usize,
    /// Backlog records whose resubmission or acknowledgment failed.
    pub replay_failed: usize,
    /// The action last asked for.
    pub pending: Action,
    /// Backlog records submitted to the replacement session, in order.
    pub resubmitted: Ghost<Seq<int>>,
}

/// Indices `k` of `status` whose event is not acknowledged, in order.
pub open spec fn unacked_indices(status: Seq<ItemStatus>) -> Seq<int>
    decreases status.len(),
{
    if status.len() == 0 {
        Seq::empty()
    } else {
        let rest = unacked_indices(status.drop_last());
        if status.last() == ItemStatus::Acked {
            rest
        } else {
            rest.push(status.len() - 1)
        }
    }
}

/// The entries of `ids` at the positions `idx`.
pub open spec fn pick(ids: Seq<String>, idx: Seq<int>) -> Seq<String> {
    Seq::new(idx.len(), |k: int| ids[idx[k]])
}

/// Whether `s` holds each of its elements once.
pub open spec fn distinct(s: Seq<usize>) -> bool {
    forall|a: int, b: int| 0 <= a < b < s.len() ==> s[a] != s[b]
}

impl Invocation {
    /// The invariant of an invocation.
    pub open spec fn wf(&self) -> bool {
        let n = self.status@.len();
        &&& self.max_inflight > 0
        &&& self.next <= n
        // Ingestion: statuses agree with the offered prefix and the in-flight queue.
        &&& forall|k: int| 0 <= k < n ==> (#[trigger] self.status@[k] == ItemStatus::Pending <==> k >= self.next)
        &&& self.inflight@.len() <= self.max_inflight
        &&& distinct(self.inflight@)
        &&& forall|q: int| 0 <= q < self.inflight@.len() ==> #[trigger] self.inflight@[q] < n
        &&& forall|k: int| 0 <= k < n ==> (#[trigger] self.status@[k] == ItemStatus::InFlight
                <==> self.inflight@.contains(k as usize))
        // Replay of the backlog.
        &&& self.replay_next <= self.unacked
        &&& self.replay_inflight@.len() <= self.max_inflight
        &&& distinct(self.replay_inflight@)
        &&& forall|q: int| 0 <= q < self.replay_inflight@.len() ==> #[trigger] self.replay_inflight@[q] < self.replay_next
        &&& self.replay_acked + self.replay_failed + self.replay_inflight@.len() == self.replay_next
        &&& self.resubmitted@ == Seq::new(self.replay_next as nat, |j: int| j)
        // The pending action fits the state.
        &&& self.pending_fits()
    }

    pub open spec fn ingest_action(&self) -> Action {
        if self.next < self.status@.len() && self.inflight@.len() < self.max_inflight {
            Action::Submit(self.next)
        } else if self.inflight@.len() > 0 {
            Action::AwaitAck(self.inflight@[0])
        } else {
            Action::Close
        }
    }

    pub open spec fn replay_action(&self) -> Action {
        if self.replay_next < self.unacked && self.replay_inflight@.len() < self.max_inflight {
            Action::Resubmit(self.replay_next)
        } else if self.replay_inflight@.len() > 0 {
            Action::AwaitReplayAck(self.replay_inflight@[0])
        } else {
            Action::Finish(Outcome::CloseFailed { replayed: self.replay_acked, lost: self.replay_failed })
        }
    }

    pub open spec fn ingesting(&self) -> bool {
        self.pending is Submit || self.pending is AwaitAck
    }

    pub open spec fn replaying(&self) -> bool {
        self.pending is Resubmit || self.pending is AwaitReplayAck
    }

    /// Whether the pending action reports the end of a failed close whose
    /// backlog was handled by the replay phase.
    pub open spec fn close_failed(&self) -> bool {
        self.pending is Finish && self.pending->Finish_0 is CloseFailed
    }

    pub open spec fn pending_fits(&self) -> bool {
        let open_phase = self.pending == Action::Open || self.pending == Action::Finish(Outcome::OpenFailed);
        let abandoned = self.pending == Action::Finish(Outcome::Abandoned);
        &&& open_phase ==> self.next == 0 && self.inflight@.len() == 0
        &&& (self.ingesting() || self.pending == Action::Close) ==> self.pending == self.ingest_action()
        &&& !(open_phase || self.ingesting() || abandoned) ==> self.next == self.status@.len()
            && self.inflight@.len() == 0
        &&& !(self.replaying() || self.close_failed() || abandoned) ==> self.replay_next == 0
            && self.replay_inflight@.len() == 0 && self.replay_acked == 0 && self.replay_failed == 0
        &&& self.replaying() ==> self.pending == self.replay_action() && self.unacked > 0
        &&& self.close_failed() ==> self.pending == self.replay_action()
    }

    /// A new invocation over `n_events` events, with at most `max_inflight`
    /// records outstanding at once. Its first action opens the session.
    pub fn new(n_events: usize, max_inflight: usize) -> (r: Invocation)
        requires
            max_inflight > 0,
        ensures
            r.wf(),
            r.status@ == Seq::new(n_events as nat, |k: int| ItemStatus::Pending),
            r.max_inflight == max_inflight,
            r.pending == Action::Open,
    {
        let mut status: Vec<ItemStatus> = Vec::new();
        let mut k: usize = 0;
        while k < n_events
            invariant
                k <= n_events,
                status@ == Seq::new(k as nat, |j: int| ItemStatus::Pending),
            decreases n_events - k,
        {
            status.push(ItemStatus::Pending);
            k = k + 1;
            proof {
                assert(status@ =~= Seq::new(k as nat, |j: int| ItemStatus::Pending));
            }
        }
        let r = Invocation {
            max_inflight,
            status,
            next: 0,
            inflight: Vec::new(),
            unacked: 0,
            replay_next: 0,
            replay_inflight: Vec::new(),
            replay_acked: 0,
            replay_failed: 0,
            pending: Action::Open,
            resubmitted: Ghost(Seq::empty()),
        };
        assert(r.resubmitted@ =~= Seq::new(0, |j: int| j));
        r
    }

    /// Whether `ev` answers the pending action: `FetchUnacked` is answered by
    /// `Unacked` or `Failed`, every other action by `Succeeded` or `Failed`,
    /// and a finished invocation takes no event.
    pub open spec fn accepts_spec(&self, ev: Event) -> bool {
        &&& !(self.pending is Finish)
        &&& ev is Unacked ==> self.pending == Action::FetchUnacked
        &&& ev == Event::Succeeded ==> self.pending != Action::FetchUnacked
    }

    pub fn accepts(&self, ev: Event) -> (r: bool)
        ensures
            r == self.accepts_spec(ev),
    {
        match self.pending {
            Action::Finish(_) => false,
            Action::FetchUnacked => !matches!(ev, Event::Succeeded),
            _ => !matches!(ev, Event::Unacked(_)),
        }
    }

    /// The next action of the ingestion phase.
    fn next_ingest_action(&self) -> (r: Action)
        ensures
            r == self.ingest_action(),
    {
        if self.next < self.status.len() && self.inflight.len() < self.max_inflight {
            Action::Submit(self.next)
        } else if self.inflight.len() > 0 {
            Action::AwaitAck(self.inflight[0])
        } else {
            Action::Close
        }
    }

    /// The next action of the replay phase.
    fn next_replay_action(&self) -> (r: Action)
        ensures
            r == self.replay_action(),
    {
        if self.replay_next < self.unacked && self.replay_inflight.len() < self.max_inflight {
            Action::Resubmit(self.replay_next)
        } else if self.replay_inflight.len() > 0 {
            Action::AwaitReplayAck(self.replay_inflight[0])
        } else {
            Action::Finish(Outcome::CloseFailed { replayed: self.replay_acked, lost: self.replay_failed })
        }
    }
}


impl Invocation {
    /// Status an event takes when the action on it ends with `ev`.
    pub open spec fn settled(ev: Event, ok: ItemStatus) -> ItemStatus {
        if ev == Event::Succeeded { ok } else { ItemStatus::Failed }
    }

    /// Takes the result `ev` of the pending action and returns the next action.
    pub fn step(&mut self, ev: Event) -> (a: Action)
        requires
            old(self).wf(),
            old(self).accepts_spec(ev),
        ensures
            final(self).wf(),
            a == final(self).pending,
            final(self).max_inflight == old(self).max_inflight,
            final(self).status@.len() == old(self).status@.len(),
            // An event is acknowledged only by the successful resolution of its handle.
            forall|k: int| 0 <= k < final(self).status@.len()
                && #[trigger] final(self).status@[k] == ItemStatus::Acked ==> old(self).status@[k]
                == ItemStatus::Acked || (old(self).pending == Action::AwaitAck(k as usize) && ev
                == Event::Succeeded),
            !(old(self).pending is Submit || old(self).pending is AwaitAck) ==> final(self).status@
                == old(self).status@,
            !(old(self).pending is Resubmit) ==> final(self).resubmitted@ == old(self).resubmitted@,
            !(old(self).pending is Submit) ==> final(self).next == old(self).next,
            !(old(self).pending is Submit || old(self).pending is AwaitAck) ==> final(self).inflight@
                == old(self).inflight@,
            old(self).pending != Action::FetchUnacked ==> final(self).unacked == old(self).unacked,
            !(old(self).pending is Resubmit || old(self).pending is AwaitReplayAck) ==> {
                &&& final(self).replay_next == old(self).replay_next
                &&& final(self).replay_inflight@ == old(self).replay_inflight@
                &&& final(self).replay_acked == old(self).replay_acked
                &&& final(self).replay_failed == old(self).replay_failed
            },
            old(self).pending == Action::Open ==> if ev == Event::Succeeded {
                a == final(self).ingest_action()
            } else {
                a == Action::Finish(Outcome::OpenFailed)
            },
            old(self).pending is Submit ==> ({
                let i = old(self).pending->Submit_0;
                &&& final(self).next == i + 1
                &&& final(self).status@ == old(self).status@.update(
                    i as int,
                    Self::settled(ev, ItemStatus::InFlight),
                )
                &&& final(self).inflight@ == if ev == Event::Succeeded {
                    old(self).inflight@.push(i)
                } else {
                    old(self).inflight@
                }
                &&& a == final(self).ingest_action()
            }),
            old(self).pending is AwaitAck ==> ({
                let i = old(self).pending->AwaitAck_0;
                &&& final(self).next == old(self).next
                &&& final(self).status@ == old(self).status@.update(
                    i as int,
                    Self::settled(ev, ItemStatus::Acked),
                )
                &&& final(self).inflight@ == old(self).inflight@.drop_first()
                &&& a == final(self).ingest_action()
            }),
            old(self).pending == Action::Close ==> a == if ev == Event::Succeeded {
                Action::Finish(Outcome::Completed)
            } else {
                Action::FetchUnacked
            },
            old(self).pending == Action::FetchUnacked ==> a == match ev {
                Event::Unacked(n) => if n == 0 {
                    Action::Finish(Outcome::CloseFailed { replayed: 0, lost: 0 })
                } else {
                    Action::OpenReplacement
                },
                _ => Action::Finish(Outcome::RecoveryFetchFailed),
            },
            old(self).pending == Action::FetchUnacked ==> final(self).unacked == match ev {
                Event::Unacked(n) => n,
                _ => old(self).unacked,
            },
            old(self).pending == Action::OpenReplacement ==> if ev == Event::Succeeded {
                a == final(self).replay_action() && final(self).unacked == old(self).unacked
            } else {
                a == Action::Finish(Outcome::RecoveryOpenFailed)
            },
            old(self).pending is Resubmit ==> ({
                let j = old(self).pending->Resubmit_0;
                &&& final(self).unacked == old(self).unacked
                &&& final(self).replay_next == j + 1
                &&& final(self).resubmitted@ == old(self).resubmitted@.push(j as int)
                &&& final(self).replay_inflight@ == if ev == Event::Succeeded {
                    old(self).replay_inflight@.push(j)
                } else {
                    old(self).replay_inflight@
                }
                &&& final(self).replay_acked == old(self).replay_acked
                &&& final(self).replay_failed == old(self).replay_failed + if ev
                    == Event::Succeeded {
                    0int
                } else {
                    1int
                }
                &&& a == final(self).replay_action()
            }),
            old(self).pending is AwaitReplayAck ==> ({
                &&& final(self).unacked == old(self).unacked
                &&& final(self).replay_next == old(self).replay_next
                &&& final(self).replay_inflight@ == old(self).replay_inflight@.drop_first()
                &&& final(self).replay_acked == old(self).replay_acked + if ev == Event::Succeeded {
                    1int
                } else {
                    0int
                }
                &&& final(self).replay_failed == old(self).replay_failed + if ev
                    == Event::Succeeded {
                    0int
                } else {
                    1int
                }
                &&& a == final(self).replay_action()
            }),
    {
        let ok = matches!(ev, Event::Succeeded);
        match self.pending {
            Action::Open => {
                if ok {
                    self.pending = self.next_ingest_action();
                } else {
                    self.pending = Action::Finish(Outcome::OpenFailed);
                }
            },
            Action::Submit(i) => {
                assert(i == self.next && i < self.status.len());
                if ok {
                    self.status.set(i, ItemStatus::InFlight);
                    self.inflight.push(i);
                } else {
                    self.status.set(i, ItemStatus::Failed);
                }
                self.next = i + 1;
                proof {
                    let n = self.status@.len();
                    assert forall|k: int| 0 <= k < n implies (#[trigger] self.status@[k]
                        == ItemStatus::InFlight <==> self.inflight@.contains(k as usize)) by {
                        if k != i {
                            assert(old(self).status@[k] == self.status@[k]);
                            if old(self).inflight@.contains(k as usize) {
                                let q = choose|q: int| 0 <= q < old(self).inflight@.len() && old(self).inflight@[q] == k as usize;
                                assert(self.inflight@[q] == k as usize);
                            }
                            if self.inflight@.contains(k as usize) {
                                let q = choose|q: int| 0 <= q < self.inflight@.len() && self.inflight@[q] == k as usize;
                                if q < old(self).inflight@.len() {
                                    assert(old(self).inflight@[q] == k as usize);
                                }
                            }
                        } else if ok {
                            assert(self.inflight@[self.inflight@.len() - 1] == i);
                        } else {
                            assert(old(self).status@[i as int] == ItemStatus::Pending);
                            assert(!old(self).inflight@.contains(i));
                        }
                    }
                }
                self.pending = self.next_ingest_action();
            },
            Action::AwaitAck(i) => {
                if ok {
                    self.status.set(i, ItemStatus::Acked);
                } else {
                    self.status.set(i, ItemStatus::Failed);
                }
                let ghost before = self.inflight@;
                self.inflight.remove(0);
                proof {
                    assert forall|q: int| 0 <= q < self.inflight@.len() implies self.inflight@[q]
                        == before[q + 1] by {}
                    let n = self.status@.len();
                    assert(before[0] == i);
                    assert(before.contains(i));
                    assert(old(self).status@[i as int] == ItemStatus::InFlight);
                    assert(i < self.next);
                    assert(distinct(self.inflight@));
                    assert forall|k: int| 0 <= k < n implies (#[trigger] self.status@[k]
                        == ItemStatus::InFlight <==> self.inflight@.contains(k as usize)) by {
                        if k != i {
                            assert(old(self).status@[k] == self.status@[k]);
                            if before.contains(k as usize) {
                                let q = choose|q: int| 0 <= q < before.len() && before[q] == k as usize;
                                assert(self.inflight@[q - 1] == k as usize);
                            }
                            if self.inflight@.contains(k as usize) {
                                let q = choose|q: int| 0 <= q < self.inflight@.len() && self.inflight@[q] == k as usize;
                                assert(before[q + 1] == k as usize);
                            }
                        } else if self.inflight@.contains(i) {
                            let q = choose|q: int| 0 <= q < self.inflight@.len() && self.inflight@[q] == i;
                            assert(before[q + 1] == before[0]);
                        }
                    }
                }
                self.pending = self.next_ingest_action();
            },
            Action::Close => {
                if ok {
                    self.pending = Action::Finish(Outcome::Completed);
                } else {
                    self.pending = Action::FetchUnacked;
                }
            },
            Action::FetchUnacked => {
                match ev {
                    Event::Unacked(n) => {
                        self.unacked = n;
                        if n == 0 {
                            self.pending = Action::Finish(
                                Outcome::CloseFailed { replayed: 0, lost: 0 },
                            );
                        } else {
                            self.pending = Action::OpenReplacement;
                        }
                    },
                    _ => {
                        self.pending = Action::Finish(Outcome::RecoveryFetchFailed);
                    },
                }
            },
            Action::OpenReplacement => {
                if ok {
                    self.pending = self.next_replay_action();
                } else {
                    self.pending = Action::Finish(Outcome::RecoveryOpenFailed);
                }
            },
            Action::Resubmit(j) => {
                if ok {
                    self.replay_inflight.push(j);
                } else {
                    self.replay_failed = self.replay_failed + 1;
                }
                self.replay_next = j + 1;
                self.resubmitted = Ghost(self.resubmitted@.push(j as int));
                proof {
                    assert(self.resubmitted@ =~= Seq::new(self.replay_next as nat, |k: int| k));
                }
                self.pending = self.next_replay_action();
            },
            Action::AwaitReplayAck(_) => {
                if ok {
                    self.replay_acked = self.replay_acked + 1;
                } else {
                    self.replay_failed = self.replay_failed + 1;
                }
                let ghost before = self.replay_inflight@;
                self.replay_inflight.remove(0);
                proof {
                    assert forall|q: int| 0 <= q < self.replay_inflight@.len() implies self.replay_inflight@[q]
                        == before[q + 1] by {}
                }
                self.pending = self.next_replay_action();
            },
            Action::Finish(_) => {},
        }
        self.pending
    }
}

/// Whether an invocation whose deadline is `deadline_ms` must stop at the
/// instant `now_ms` (both in milliseconds since the Unix epoch).
pub fn deadline_reached(now_ms: u64, deadline_ms: u64) -> (r: bool)
    ensures
        r == (now_ms >= deadline_ms),
{
    now_ms >= deadline_ms
}

impl Invocation {
    /// Abandons the session because the invocation's deadline has come: an
    /// unfinished invocation ends as failed, with every status kept, so that
    /// events still in flight count as not acknowledged; a finished one is
    /// left as it is.
    pub fn abandon(&mut self)
        requires
            old(self).wf(),
        ensures
            final(self).wf(),
            final(self).status@ == old(self).status@,
            final(self).max_inflight == old(self).max_inflight,
            final(self).pending == if old(self).pending is Finish {
                old(self).pending
            } else {
                Action::Finish(Outcome::Abandoned)
            },
    {
        if !matches!(self.pending, Action::Finish(_)) {
            self.pending = Action::Finish(Outcome::Abandoned);
        }
    }
}

/// What the invocation boundary reports once `a` ends the invocation; `None`
/// while it is still running.
pub open spec fn result_of(a: Action) -> Option<Result<(), InvocationError>> {
    match a {
        Action::Finish(o) => Some(
            match o {
                Outcome::Completed => Ok(()),
                Outcome::OpenFailed => Err(InvocationError::StreamOpen),
                Outcome::CloseFailed { replayed, lost } => Err(
                    InvocationError::Close { replayed, lost },
                ),
                Outcome::RecoveryFetchFailed => Err(InvocationError::RecoveryFetch),
                Outcome::RecoveryOpenFailed => Err(InvocationError::RecoveryOpen),
                Outcome::Abandoned => Err(InvocationError::DeadlineExceeded),
            },
        ),
        _ => None,
    }
}

impl Invocation {
    /// The result reported at the invocation boundary, once finished.
    pub fn result(&self) -> (r: Option<Result<(), InvocationError>>)
        ensures
            r == result_of(self.pending),
    {
        match self.pending {
            Action::Finish(o) => Some(
                match o {
                    Outcome::Completed => Ok(()),
                    Outcome::OpenFailed => Err(InvocationError::StreamOpen),
                    Outcome::CloseFailed { replayed, lost } => Err(
                        InvocationError::Close { replayed, lost },
                    ),
                    Outcome::RecoveryFetchFailed => Err(InvocationError::RecoveryFetch),
                    Outcome::RecoveryOpenFailed => Err(InvocationError::RecoveryOpen),
                    Outcome::Abandoned => Err(InvocationError::DeadlineExceeded),
                },
            ),
            _ => None,
        }
    }

    /// Positions of the events that are not acknowledged, in order: those to
    /// be redelivered by the upstream source.
    pub fn failed_indices(&self) -> (r: Vec<usize>)
        ensures
            r@.map_values(|x: usize| x as int) == unacked_indices(self.status@),
    {
        let mut r: Vec<usize> = Vec::new();
        let mut k: usize = 0;
        while k < self.status.len()
            invariant
                k <= self.status@.len(),
                r@.map_values(|x: usize| x as int) == unacked_indices(self.status@.subrange(0, k as int)),
            decreases self.status@.len() - k,
        {
            let ghost pre = self.status@.subrange(0, k as int);
            let ghost cur = self.status@.subrange(0, k + 1);
            assert(cur.drop_last() =~= pre);
            if self.status[k] != ItemStatus::Acked {
                r.push(k);
            }
            k = k + 1;
            assert(r@.map_values(|x: usize| x as int) =~= unacked_indices(cur));
        }
        assert(self.status@.subrange(0, self.status@.len() as int) =~= self.status@);
        r
    }

    /// The identifiers of the events that are not acknowledged, given the
    /// identifier of each event: the partial-failure response of a batch.
    pub fn batch_failures(&self, ids: &Vec<String>) -> (r: Vec<String>)
        requires
            ids@.len() == self.status@.len(),
        ensures
            r@ == pick(ids@, unacked_indices(self.status@)),
    {
        let idx = self.failed_indices();
        proof {
            lemma_unacked_indices_in_range(self.status@);
        }
        let mut r: Vec<String> = Vec::new();
        let mut q: usize = 0;
        while q < idx.len()
            invariant
                q <= idx@.len(),
                idx@.map_values(|x: usize| x as int) == unacked_indices(self.status@),
                ids@.len() == self.status@.len(),
                forall|p: int| 0 <= p < idx@.len() ==> 0 <= #[trigger] unacked_indices(self.status@)[p] < ids@.len(),
                r@ == pick(ids@, unacked_indices(self.status@).subrange(0, q as int)),
            decreases idx@.len() - q,
        {
            assert(unacked_indices(self.status@)[q as int] == idx@[q as int] as int);
            let id = ids[idx[q]].clone();
            r.push(id);
            q = q + 1;
            assert(r@ =~= pick(ids@, unacked_indices(self.status@).subrange(0, q as int)));
        }
        assert(unacked_indices(self.status@).subrange(0, q as int) =~= unacked_indices(self.status@));
        r
    }
}

/// Every position listed by `unacked_indices` lies within the statuses.
pub proof fn lemma_unacked_indices_in_range(status: Seq<ItemStatus>)
    ensures
        forall|p: int| 0 <= p < unacked_indices(status).len() ==> 0 <= #[trigger] unacked_indices(status)[p] < status.len(),
    decreases status.len(),
{
    if status.len() > 0 {
        let rest = unacked_indices(status.drop_last());
        lemma_unacked_indices_in_range(status.drop_last());
        assert forall|p: int| 0 <= p < unacked_indices(status).len() implies 0
            <= #[trigger] unacked_indices(status)[p] < status.len() by {
            if p < rest.len() {
                assert(unacked_indices(status)[p] == rest[p]);
            }
        }
    }
}

/// The partial-failure response never names an acknowledged event: an event
/// whose acknowledgment handle resolved successfully is not listed for
/// redelivery, whatever happened to the other events of the batch.
pub proof fn lemma_acked_never_reported(status: Seq<ItemStatus>, k: int)
    requires
        0 <= k < status.len(),
        status[k] == ItemStatus::Acked,
    ensures
        !unacked_indices(status).contains(k),
    decreases status.len(),
{
    let rest = unacked_indices(status.drop_last());
    lemma_unacked_indices_in_range(status.drop_last());
    if k < status.len() - 1 {
        lemma_acked_never_reported(status.drop_last(), k);
    }
    if unacked_indices(status).contains(k) {
        let p = choose|p: int| 0 <= p < unacked_indices(status).len() && unacked_indices(status)[p] == k;
        if p < rest.len() {
            assert(rest[p] == k);
        }
    }
}

/// An event that is not acknowledged is listed for redelivery.
pub proof fn lemma_unacked_reported(status: Seq<ItemStatus>, k: int)
    requires
        0 <= k < status.len(),
        status[k] != ItemStatus::Acked,
    ensures
        unacked_indices(status).contains(k),
    decreases status.len(),
{
    let rest = unacked_indices(status.drop_last());
    if k == status.len() - 1 {
        assert(unacked_indices(status).last() == k);
    } else {
        lemma_unacked_reported(status.drop_last(), k);
        let p = choose|p: int| 0 <= p < rest.len() && rest[p] == k;
        if status.last() != ItemStatus::Acked {
            assert(unacked_indices(status)[p] == k);
        }
    }
}

/// At no point are more records outstanding on a session than the in-flight
/// bound allows: the events in flight are exactly the queue of outstanding
/// handles, which holds each event once and never more than `max_inflight`;
/// the same bound holds during a replay.
pub proof fn lemma_inflight_bounded(s: &Invocation)
    requires
        s.wf(),
    ensures
        s.inflight@.len() <= s.max_inflight,
        s.inflight@.no_duplicates(),
        forall|k: int| 0 <= k < s.status@.len() ==> (#[trigger] s.status@[k] == ItemStatus::InFlight
            <==> s.inflight@.contains(k as usize)),
        s.replay_inflight@.len() <= s.max_inflight,
        s.replay_inflight@.no_duplicates(),
{
}

/// A replay resubmits exactly the unacknowledged backlog: when an invocation
/// ends after a failed close with its backlog handled, every backlog record
/// was submitted to the replacement session once, and no other.
pub proof fn lemma_replay_exact(s: &Invocation)
    requires
        s.wf(),
        s.close_failed(),
    ensures
        s.resubmitted@.len() == s.unacked,
        s.resubmitted@.no_duplicates(),
        s.resubmitted@.to_set() == Set::new(|j: int| 0 <= j < s.unacked),
{
    assert(s.resubmitted@.to_set() =~= Set::new(|j: int| 0 <= j < s.unacked)) by {
        assert forall|j: int| 0 <= j < s.unacked implies s.resubmitted@.contains(j) by {
            assert(s.resubmitted@[j] == j);
        }
    }
}

} // verus!
