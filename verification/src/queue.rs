//! The prompt queue: jobs wait in arrival order and at most
//! `MAX_CONCURRENT` of them run at once.
//!
//! The queue only decides; the caller delivers the messages. After a job
//! joins (`enter_queue`) or finishes (`notify_done`) the queue updates: it
//! answers `Start` with the next job to start, the caller tells that job and
//! reports with `update_step` whether it could; when no more jobs can start
//! the queue answers `Broadcast` with every waiting job's new place.

use vstd::prelude::*;

verus! {

/// How many jobs may run at the same time.
pub const MAX_CONCURRENT: usize = 1;

/// A place in the queue, counted from 1.
pub type PositionInQueue = usize;

/// The identity of a job.
pub type JobId = u128;

/// What a waiting job is told.
#[derive(Debug, Clone, Copy, PartialEq, Eq, Structural)]
pub enum QueueMessage {
    PositionUpade(PositionInQueue),
    StartJob(JobId),
}

/// What the queue asks of its caller during an update.
#[derive(Debug)]
pub enum QueueAction {
    /// Tell this job that it may start, then report with `QueueEvent::StartSent`.
    Start(JobId),
    /// Send each waiting job its place; the update is over.
    Broadcast(Vec<(JobId, PositionInQueue)>),
}

/// What the caller reports to the queue during an update.
#[derive(Debug, Clone, Copy)]
pub enum QueueEvent {
    /// Go on with the update.
    Update,
    /// The job the queue asked to start was told (`true`) or could not be (`false`).
    StartSent(JobId, bool),
}

/// The running jobs once a report is taken in: a job that was told to start
/// runs, one that could not be told is dropped.
pub open spec fn running_after(running: Seq<JobId>, ev: QueueEvent) -> Seq<JobId> {
    match ev {
        QueueEvent::StartSent(j, true) => running.push(j),
        _ => running,
    }
}

/// One step of an update from waiting jobs `w` and running jobs `r`: while
/// fewer than `MAX_CONCURRENT` jobs run and some wait, the first waiting job
/// is taken off the queue to start; otherwise each waiting job is given its
/// place, counted from 1, and nothing changes.
pub open spec fn update_outcome(w: Seq<JobId>, r: Seq<JobId>, a: QueueAction, fw: Seq<JobId>, fr: Seq<JobId>) -> bool {
    if r.len() < MAX_CONCURRENT && w.len() > 0 {
        &&& a matches QueueAction::Start(j) && j == w[0]
        &&& fw == w.drop_first()
        &&& fr == r
    } else {
        &&& a matches QueueAction::Broadcast(ps) && ps.len() == w.len()
            && forall|k: int| 0 <= k < ps.len() ==> #[trigger] ps@[k] == (w[k], (k + 1) as usize)
        &&& fw == w
        &&& fr == r
    }
}

/// An update ends only when as many jobs run as may, or none waits; the
/// places it hands out count the waiting jobs from 1 in queue order.
pub proof fn lemma_update_ends_settled(w: Seq<JobId>, r: Seq<JobId>, a: QueueAction, fw: Seq<JobId>, fr: Seq<JobId>)
    requires
        update_outcome(w, r, a, fw, fr),
        a is Broadcast,
    ensures
        fr.len() >= MAX_CONCURRENT || fw.len() == 0,
        fw == w,
        fr == r,
        forall|k: int| 0 <= k < fw.len() ==> #[trigger] a->Broadcast_0@[k] == (fw[k], (k + 1) as usize),
{
}

/// The jobs of `s` whose start could be told (`d[k]` for the k-th).
pub open spec fn told(s: Seq<JobId>, d: Seq<bool>) -> Seq<JobId>
    decreases s.len(),
{
    if s.len() == 0 {
        Seq::empty()
    } else {
        let rest = told(s.drop_first(), d.drop_first());
        if d.len() > 0 && d[0] {
            seq![s[0]] + rest
        } else {
            rest
        }
    }
}

/// A whole update from waiting jobs `w` and running jobs `r`, where the
/// k-th job the queue starts could be told (`delivered[k]`) or not: the
/// waiting and running jobs it ends with, and the jobs it started, in order.
pub open spec fn update_run(w: Seq<JobId>, r: Seq<JobId>, delivered: Seq<bool>) -> (Seq<JobId>, Seq<JobId>, Seq<JobId>)
    decreases w.len(),
{
    if r.len() < MAX_CONCURRENT && w.len() > 0 {
        let d = delivered.len() > 0 && delivered[0];
        let (fw, fr, st) = update_run(w.drop_first(), if d { r.push(w[0]) } else { r }, delivered.drop_first());
        (fw, fr, seq![w[0]] + st)
    } else {
        (w, r, Seq::empty())
    }
}

/// One step of an update is the start of the whole update: when a job can
/// start, the update is that job's start, told or not, then the update from
/// what is left; otherwise the update does nothing.
pub proof fn lemma_update_run_step(w: Seq<JobId>, r: Seq<JobId>, d: bool, rest: Seq<bool>)
    ensures
        r.len() < MAX_CONCURRENT && w.len() > 0 ==> {
            let (fw, fr, st) = update_run(w.drop_first(), running_after(r, QueueEvent::StartSent(w[0], d)), rest);
            update_run(w, r, seq![d] + rest) == (fw, fr, seq![w[0]] + st)
        },
        !(r.len() < MAX_CONCURRENT && w.len() > 0) ==> update_run(w, r, seq![d] + rest) == (w, r, Seq::<JobId>::empty()),
{
    assert((seq![d] + rest).drop_first() =~= rest);
}

/// A whole update ends with no more jobs running than may, and with as many
/// running as may or none waiting; the jobs it started are the first waiting
/// ones, in order, those that could be told now run after the running ones,
/// and the rest still wait in their order.
pub proof fn lemma_update_run(w: Seq<JobId>, r: Seq<JobId>, delivered: Seq<bool>)
    requires
        r.len() <= MAX_CONCURRENT,
    ensures
        ({
            let (fw, fr, st) = update_run(w, r, delivered);
            &&& fr.len() <= MAX_CONCURRENT
            &&& fr.len() == MAX_CONCURRENT || fw.len() == 0
            &&& w == st + fw
            &&& fr == r + told(st, delivered)
        }),
    decreases w.len(),
{
    if r.len() < MAX_CONCURRENT && w.len() > 0 {
        let d = delivered.len() > 0 && delivered[0];
        let r2 = if d { r.push(w[0]) } else { r };
        lemma_update_run(w.drop_first(), r2, delivered.drop_first());
        let (fw, fr, st) = update_run(w.drop_first(), r2, delivered.drop_first());
        let st2 = seq![w[0]] + st;
        assert(st2.drop_first() =~= st);
        assert(st2[0] == w[0]);
        assert(w =~= seq![w[0]] + w.drop_first());
        assert(st2 + fw =~= seq![w[0]] + (st + fw));
        if d {
            assert(told(st2, delivered) == seq![w[0]] + told(st, delivered.drop_first()));
            assert(fr =~= r + told(st2, delivered));
        } else {
            assert(told(st2, delivered) == told(st, delivered.drop_first()));
        }
    } else {
        assert(w =~= Seq::<JobId>::empty() + w);
        assert(told(Seq::<JobId>::empty(), delivered) =~= Seq::<JobId>::empty());
        assert(r =~= r + Seq::<JobId>::empty());
    }
}

/// Waiting jobs in arrival order, and the running ones.
pub struct QueueManager {
    waiting: Vec<JobId>,
    running: Vec<JobId>,
    /// The waiting and running jobs when the current update began.
    update_from: Ghost<(Seq<JobId>, Seq<JobId>)>,
    /// The deliveries reported in the current update.
    reports: Ghost<Seq<bool>>,
    /// The jobs started in the current update.
    started_jobs: Ghost<Seq<JobId>>,
    /// Whether the last started job awaits its report.
    awaiting_report: Ghost<bool>,
}

/// Where an update stands after a step that answered `a`, with the
/// reports `reps` made and the jobs `st` started before this step: a started
/// job is added and awaits its report; an update that ends has met
/// `update_run` from its start with those reports.
pub open spec fn update_progress(q: QueueManager, a: QueueAction, reps: Seq<bool>, st: Seq<JobId>) -> bool {
    &&& q.reported() == reps
    &&& match a {
        QueueAction::Start(j) => q.started() == st.push(j) && q.awaiting() == Some(j),
        QueueAction::Broadcast(_) => {
            &&& q.started() == st
            &&& q.awaiting() is None
            &&& update_run(q.update_start().0, q.update_start().1, reps) == (q.waiting_view(), q.running_view(), st)
        },
    }
}

/// When an update ends, however its steps went: no more jobs run than may,
/// and as many as may run or none waits; the jobs it started were the first
/// that waited when it began, in order; those that could be told now run
/// after the jobs that ran when it began; the rest still wait, in order.
pub proof fn lemma_update_ended(q: QueueManager, a: QueueAction, reps: Seq<bool>, st: Seq<JobId>)
    requires
        update_progress(q, a, reps, st),
        a is Broadcast,
        q.update_start().1.len() <= MAX_CONCURRENT,
    ensures
        q.running_view().len() <= MAX_CONCURRENT,
        q.running_view().len() == MAX_CONCURRENT || q.waiting_view().len() == 0,
        q.update_start().0 == q.started() + q.waiting_view(),
        q.running_view() == q.update_start().1 + told(q.started(), q.reported()),
{
    lemma_update_run(q.update_start().0, q.update_start().1, reps);
}

/// An update's end with the jobs started before it put in front.
pub open spec fn with_started(x: (Seq<JobId>, Seq<JobId>, Seq<JobId>), s: Seq<JobId>) -> (Seq<JobId>, Seq<JobId>, Seq<JobId>) {
    (x.0, x.1, s + x.2)
}

/// A job occurs in the sequence.
pub open spec fn holds(s: Seq<JobId>, j: JobId) -> bool {
    s.contains(j)
}

/// The first place of `j` in `v`, if any.
fn find_job(v: &Vec<JobId>, j: JobId) -> (r: Option<usize>)
    ensures
        r matches Some(i) ==> i < v.len() && v@[i as int] == j && forall|k: int| 0 <= k < i ==> v@[k] != j,
        r is None ==> forall|k: int| 0 <= k < v.len() ==> v@[k] != j,
{
    let mut i: usize = 0;
    while i < v.len()
        invariant
            i <= v.len(),
            forall|k: int| 0 <= k < i ==> v@[k] != j,
        decreases v.len() - i,
    {
        if v[i] == j {
            return Some(i);
        }
        i = i + 1;
    }
    None
}

impl QueueManager {
    /// The waiting jobs, first to start first.
    pub closed spec fn waiting_view(&self) -> Seq<JobId> {
        self.waiting@
    }

    /// The running jobs.
    pub closed spec fn running_view(&self) -> Seq<JobId> {
        self.running@
    }

    /// No more than `MAX_CONCURRENT` jobs run, and no job is listed twice.
    pub open spec fn wf(&self) -> bool {
        &&& self.running_view().len() <= MAX_CONCURRENT
        &&& (self.waiting_view() + self.running_view()).no_duplicates()
    }

    /// The waiting and running jobs when the current update began.
    pub closed spec fn update_start(&self) -> (Seq<JobId>, Seq<JobId>) {
        self.update_from@
    }

    /// The deliveries reported in the current update, in order.
    pub closed spec fn reported(&self) -> Seq<bool> {
        self.reports@
    }

    /// The jobs the current update started, in order.
    pub closed spec fn started(&self) -> Seq<JobId> {
        self.started_jobs@
    }

    /// The job whose start the queue awaits a report on, if any.
    pub closed spec fn awaiting(&self) -> Option<JobId> {
        if self.awaiting_report@ {
            Some(self.started_jobs@.last())
        } else {
            None
        }
    }

    /// The current update, carried on from here with any further reports,
    /// ends as the whole update from its start with all the reports does.
    closed spec fn tracks(&self) -> bool {
        let (w0, r0) = self.update_from@;
        if !self.awaiting_report@ {
            forall|rest: Seq<bool>| #[trigger] update_run(w0, r0, self.reports@ + rest)
                == with_started(update_run(self.waiting@, self.running@, rest), self.started_jobs@)
        } else {
            &&& self.started_jobs@.len() > 0
            &&& forall|d: bool, rest: Seq<bool>| #[trigger] update_run(w0, r0, self.reports@ + (seq![d] + rest))
                == with_started(update_run(self.waiting@,
                    running_after(self.running@, QueueEvent::StartSent(self.started_jobs@.last(), d)), rest),
                    self.started_jobs@)
        }
    }

    /// A well-formed queue in the middle of, or between, updates.
    pub closed spec fn ready(&self) -> bool {
        self.wf() && self.tracks()
    }

    closed spec fn ghosts(&self) -> ((Seq<JobId>, Seq<JobId>), Seq<bool>, Seq<JobId>, bool) {
        (self.update_from@, self.reports@, self.started_jobs@, self.awaiting_report@)
    }

    /// Begins an update from the queue as it stands.
    fn begin_update(&mut self)
        requires
            old(self).wf(),
        ensures
            final(self).ready(),
            final(self).waiting_view() == old(self).waiting_view(),
            final(self).running_view() == old(self).running_view(),
            final(self).update_start() == (old(self).waiting_view(), old(self).running_view()),
            final(self).reported() == Seq::<bool>::empty(),
            final(self).started() == Seq::<JobId>::empty(),
            final(self).awaiting() is None,
    {
        self.update_from = Ghost((self.waiting@, self.running@));
        self.reports = Ghost(Seq::empty());
        self.started_jobs = Ghost(Seq::empty());
        self.awaiting_report = Ghost(false);
        proof {
            assert forall|rest: Seq<bool>| #[trigger] update_run(self.waiting@, self.running@, self.reports@ + rest)
                == with_started(update_run(self.waiting@, self.running@, rest), self.started_jobs@) by {
                assert(self.reports@ + rest =~= rest);
                let x = update_run(self.waiting@, self.running@, rest);
                assert(Seq::<JobId>::empty() + x.2 =~= x.2);
            }
        }
    }

    /// An empty queue.
    pub fn new() -> (q: Self)
        ensures
            q.ready(),
            q.waiting_view() == Seq::<JobId>::empty(),
            q.running_view() == Seq::<JobId>::empty(),
            q.awaiting() is None,
    {
        let mut q = QueueManager {
            waiting: Vec::new(),
            running: Vec::new(),
            update_from: Ghost((Seq::empty(), Seq::empty())),
            reports: Ghost(Seq::empty()),
            started_jobs: Ghost(Seq::empty()),
            awaiting_report: Ghost(false),
        };
        proof {
            assert(q.waiting_view() + q.running_view() =~= Seq::<JobId>::empty());
        }
        q.begin_update();
        q
    }

    /// A new job joins the end of the queue, and the queue updates.
    pub fn enter_queue(&mut self, job: JobId) -> (a: QueueAction)
        requires
            old(self).ready(),
            old(self).awaiting() is None,
            !holds(old(self).waiting_view() + old(self).running_view(), job),
        ensures
            final(self).ready(),
            final(self).update_start() == (old(self).waiting_view().push(job), old(self).running_view()),
            update_outcome(old(self).waiting_view().push(job), old(self).running_view(), a,
                final(self).waiting_view(), final(self).running_view()),
            update_progress(*final(self), a, Seq::empty(), Seq::empty()),
    {
        self.join(job);
        self.begin_update();
        self.update_step(QueueEvent::Update)
    }

    /// Takes in the caller's report and takes the next step of the update.
    /// However the caller's steps go, an update ends (`Broadcast`) in the
    /// state `update_run` gives for its start and the reports made.
    pub fn update_step(&mut self, ev: QueueEvent) -> (a: QueueAction)
        requires
            old(self).ready(),
            old(self).awaiting() == match ev {
                QueueEvent::StartSent(j, _) => Some(j),
                QueueEvent::Update => None::<JobId>,
            },
            ev matches QueueEvent::StartSent(j, _) ==> old(self).running_view().len() < MAX_CONCURRENT
                && !holds(old(self).waiting_view() + old(self).running_view(), j),
        ensures
            final(self).ready(),
            update_outcome(old(self).waiting_view(), running_after(old(self).running_view(), ev), a,
                final(self).waiting_view(), final(self).running_view()),
            final(self).update_start() == old(self).update_start(),
            update_progress(*final(self), a, old(self).reported() + match ev {
                QueueEvent::StartSent(_, d) => seq![d],
                QueueEvent::Update => Seq::<bool>::empty(),
            }, old(self).started()),
    {
        let ghost w0 = self.update_from@.0;
        let ghost r0 = self.update_from@.1;
        match ev {
            QueueEvent::StartSent(j, delivered) => {
                let ghost reps = self.reports@;
                let ghost st = self.started_jobs@;
                let ghost rb = self.running@;
                self.job_started(j, delivered);
                self.reports = Ghost(self.reports@.push(delivered));
                self.awaiting_report = Ghost(false);
                proof {
                    assert(st.last() == j);
                    assert(self.running@ == running_after(rb, ev));
                    assert forall|rest: Seq<bool>| #[trigger] update_run(w0, r0, self.reports@ + rest)
                        == with_started(update_run(self.waiting@, self.running@, rest), self.started_jobs@) by {
                        assert(reps.push(delivered) + rest =~= reps + (seq![delivered] + rest));
                        assert(update_run(w0, r0, reps + (seq![delivered] + rest))
                            == with_started(update_run(self.waiting@, running_after(rb, QueueEvent::StartSent(st.last(), delivered)), rest), st));
                    }
                    assert(self.tracks());
                    assert(self.reports@ =~= reps + seq![delivered]);
                }
            },
            QueueEvent::Update => {
                proof {
                    assert(self.reports@ =~= self.reports@ + Seq::<bool>::empty());
                }
            },
        }
        let ghost reps = self.reports@;
        let ghost st = self.started_jobs@;
        let ghost wb = self.waiting@;
        let ghost rb = self.running@;
        match self.next_to_start() {
            Some(j) => {
                self.started_jobs = Ghost(self.started_jobs@.push(j));
                self.awaiting_report = Ghost(true);
                proof {
                    assert forall|d: bool, rest: Seq<bool>| #[trigger] update_run(w0, r0, self.reports@ + (seq![d] + rest))
                        == with_started(update_run(self.waiting@,
                            running_after(self.running@, QueueEvent::StartSent(self.started_jobs@.last(), d)), rest),
                            self.started_jobs@) by {
                        assert(update_run(w0, r0, reps + (seq![d] + rest)) == with_started(update_run(wb, rb, seq![d] + rest), st));
                        lemma_update_run_step(wb, rb, d, rest);
                        let x = update_run(wb.drop_first(), running_after(rb, QueueEvent::StartSent(wb[0], d)), rest);
                        assert(self.started_jobs@.last() == wb[0]);
                        assert(st + (seq![wb[0]] + x.2) =~= st.push(wb[0]) + x.2);
                    }
                    assert(self.tracks());
                }
                QueueAction::Start(j)
            },
            None => {
                proof {
                    assert(update_run(w0, r0, reps + Seq::<bool>::empty())
                        == with_started(update_run(wb, rb, Seq::<bool>::empty()), st));
                    assert(reps + Seq::<bool>::empty() =~= reps);
                    assert(update_run(wb, rb, Seq::<bool>::empty()) == (wb, rb, Seq::<JobId>::empty()));
                    assert(st + Seq::<JobId>::empty() =~= st);
                }
                QueueAction::Broadcast(self.positions())
            },
        }
    }

    /// A new job joins the end of the queue.
    fn join(&mut self, job: JobId)
        requires
            old(self).wf(),
            !holds(old(self).waiting_view() + old(self).running_view(), job),
        ensures
            final(self).ghosts() == old(self).ghosts(),
            final(self).wf(),
            final(self).waiting_view() == old(self).waiting_view().push(job),
            final(self).running_view() == old(self).running_view(),
    {
        self.waiting.push(job);
        proof {
            let w = old(self).waiting_view();
            let r = old(self).running_view();
            let all = self.waiting_view() + self.running_view();
            assert forall|a: int, b: int| 0 <= a < b < all.len() implies all[a] != all[b] by {
                let o = w + r;
                if a == w.len() as int {
                    assert(all[b] == o[b - 1]);
                    assert(o.contains(all[b]));
                } else if b == w.len() as int {
                    assert(all[a] == o[a]);
                    assert(o.contains(all[a]));
                } else {
                    let aa = if a < w.len() { a } else { a - 1 };
                    let bb = if b < w.len() { b } else { b - 1 };
                    assert(all[a] == o[aa]);
                    assert(all[b] == o[bb]);
                }
            }
        }
    }

    /// The job to start next: the first waiting one, taken off the queue,
    /// when fewer than `MAX_CONCURRENT` jobs run; otherwise nothing changes.
    fn next_to_start(&mut self) -> (r: Option<JobId>)
        requires
            old(self).wf(),
        ensures
            final(self).ghosts() == old(self).ghosts(),
            final(self).wf(),
            final(self).running_view() == old(self).running_view(),
            (old(self).running_view().len() < MAX_CONCURRENT && old(self).waiting_view().len() > 0) ==> {
                &&& r == Some(old(self).waiting_view()[0])
                &&& final(self).waiting_view() == old(self).waiting_view().drop_first()
            },
            !(old(self).running_view().len() < MAX_CONCURRENT && old(self).waiting_view().len() > 0) ==> {
                &&& r is None
                &&& final(self).waiting_view() == old(self).waiting_view()
            },
    {
        if self.running.len() < MAX_CONCURRENT && self.waiting.len() > 0 {
            let j = self.waiting.remove(0);
            proof {
                let o = old(self).waiting_view() + old(self).running_view();
                let n = self.waiting_view() + self.running_view();
                assert(self.waiting_view() =~= old(self).waiting_view().drop_first());
                assert(n =~= o.drop_first());
                assert forall|a: int, b: int| 0 <= a < b < n.len() implies n[a] != n[b] by {
                    assert(n[a] == o[a + 1]);
                    assert(n[b] == o[b + 1]);
                }
            }
            Some(j)
        } else {
            None
        }
    }

    /// Records whether a job taken by `next_to_start` could be told to start:
    /// if so it runs, otherwise it is dropped.
    fn job_started(&mut self, job: JobId, delivered: bool)
        requires
            old(self).wf(),
            old(self).running_view().len() < MAX_CONCURRENT,
            !holds(old(self).waiting_view() + old(self).running_view(), job),
        ensures
            final(self).ghosts() == old(self).ghosts(),
            final(self).wf(),
            final(self).waiting_view() == old(self).waiting_view(),
            delivered ==> final(self).running_view() == old(self).running_view().push(job),
            !delivered ==> final(self).running_view() == old(self).running_view(),
    {
        if delivered {
            self.running.push(job);
            proof {
                let o = old(self).waiting_view() + old(self).running_view();
                let n = self.waiting_view() + self.running_view();
                assert(n =~= o.push(job));
                assert forall|a: int, b: int| 0 <= a < b < n.len() implies n[a] != n[b] by {
                    if b == o.len() {
                        assert(n[a] == o[a]);
                        assert(o.contains(n[a]));
                    } else {
                        assert(n[a] == o[a]);
                        assert(n[b] == o[b]);
                    }
                }
            }
        }
    }

    /// Each waiting job with its place, counted from 1, in queue order.
    pub fn positions(&self) -> (r: Vec<(JobId, PositionInQueue)>)
        ensures
            r.len() == self.waiting_view().len(),
            forall|k: int| 0 <= k < r.len() ==> #[trigger] r@[k] == (self.waiting_view()[k], (k + 1) as usize),
    {
        let mut r: Vec<(JobId, PositionInQueue)> = Vec::new();
        let mut i: usize = 0;
        while i < self.waiting.len()
            invariant
                i <= self.waiting.len(),
                r.len() == i,
                forall|k: int| 0 <= k < i ==> #[trigger] r@[k] == (self.waiting@[k], (k + 1) as usize),
            decreases self.waiting.len() - i,
        {
            r.push((self.waiting[i], i + 1));
            i = i + 1;
        }
        r
    }

    /// The running jobs once `j` has finished.
    pub open spec fn without(running: Seq<JobId>, j: JobId) -> Seq<JobId> {
        if holds(running, j) {
            running.remove(running.index_of(j))
        } else {
            running
        }
    }

    /// A finished job leaves the running set, and the queue updates.
    pub fn notify_done(&mut self, done_job_id: JobId) -> (a: QueueAction)
        requires
            old(self).ready(),
            old(self).awaiting() is None,
        ensures
            final(self).ready(),
            !holds(final(self).running_view(), done_job_id),
            final(self).update_start() == (old(self).waiting_view(), Self::without(old(self).running_view(), done_job_id)),
            update_outcome(old(self).waiting_view(), Self::without(old(self).running_view(), done_job_id), a,
                final(self).waiting_view(), final(self).running_view()),
            update_progress(*final(self), a, Seq::empty(), Seq::empty()),
    {
        self.finish(done_job_id);
        self.begin_update();
        self.update_step(QueueEvent::Update)
    }

    /// A finished job leaves the running set; nothing else changes.
    fn finish(&mut self, done_job_id: JobId)
        requires
            old(self).wf(),
        ensures
            final(self).ghosts() == old(self).ghosts(),
            final(self).wf(),
            final(self).waiting_view() == old(self).waiting_view(),
            !holds(final(self).running_view(), done_job_id),
            final(self).running_view() == Self::without(old(self).running_view(), done_job_id),
    {
        let index = find_job(&self.running, done_job_id);
        match index {
            Some(i) => {
                proof {
                    assert(self.running@[i as int] == done_job_id);
                    assert(self.running@.contains(done_job_id));
                    assert(self.running@.index_of(done_job_id) == i) by {
                        let k = self.running@.index_of(done_job_id);
                        if k != i {
                            assert(self.running@[k] == done_job_id);
                        }
                    }
                }
                self.running.remove(i);
                proof {
                    let o = old(self).waiting_view() + old(self).running_view();
                    let n = self.waiting_view() + self.running_view();
                    let w = old(self).waiting_view();
                    let ow = w.len() as int;
                    assert forall|a: int, b: int| 0 <= a < b < n.len() implies n[a] != n[b] by {
                        let aa = if a < ow + i { a } else { a + 1 };
                        let bb = if b < ow + i { b } else { b + 1 };
                        assert(n[a] == o[aa]);
                        assert(n[b] == o[bb]);
                    }
                    if self.running@.contains(done_job_id) {
                        let k = choose|k: int| 0 <= k < self.running@.len() && self.running@[k] == done_job_id;
                        let kk = if k < i { k } else { k + 1 };
                        assert(old(self).running_view()[kk] == done_job_id);
                        assert(o[ow + kk] == o[ow + i]);
                        assert(false);
                    }
                }
            },
            None => {
                proof {
                    if self.running@.contains(done_job_id) {
                        let k = choose|k: int| 0 <= k < self.running@.len() && self.running@[k] == done_job_id;
                        assert(self.running@[k] != done_job_id);
                    }
                }
            },
        }
    }
}

} // verus!
