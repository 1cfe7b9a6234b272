use vstd::prelude::*;

use crate::experiment::{ExperimentConfig, ExperimentResult, same_result};
use crate::keyed::{find_key, insert_position, keys_sorted, keys_unique, lemma_find_key_at, lemma_insert_position, lemma_put_sorted, lemma_sorted_unique, put_sorted};
use crate::text::{blank, chars_lt, chars_of, is_blank, seq_lt, str_eq};

verus! {

broadcast use vstd::string::group_string_axioms;

/// An experiment handed to a worker, with the attempt it belongs to.
#[derive(Debug, Clone, PartialEq)]
pub struct LeasedExperiment {
    pub id: String,
    pub attempt: u32,
    pub config: ExperimentConfig,
}

/// Where an experiment stands.
#[derive(Debug, Clone, PartialEq, Eq)]
pub enum TaskStatus {
    Pending,
    Leased { worker: String, attempt: u32, expires_at: u64 },
    Completed,
    Failed,
}

/// Why the scheduler refused a request.
#[derive(Debug, Clone, Copy, PartialEq, Eq, Structural)]
pub enum SchedulerError {
    InvalidTask,
    UnknownTask,
    AttemptMismatch,
    ResultConflict,
}

/// What a successful completion did.
#[derive(Debug, Clone, Copy, PartialEq, Eq, Structural)]
pub enum CompletionOutcome {
    Stored,
    DuplicateIgnored,
}

/// A task status with the worker's name as characters.
pub enum StatusView {
    Pending,
    Leased { worker: Seq<char>, attempt: u32, expires_at: u64 },
    Completed,
    Failed,
}

impl View for TaskStatus {
    type V = StatusView;

    open spec fn view(&self) -> StatusView {
        match self {
            TaskStatus::Pending => StatusView::Pending,
            TaskStatus::Leased { worker, attempt, expires_at } => StatusView::Leased {
                worker: worker@,
                attempt: *attempt,
                expires_at: *expires_at,
            },
            TaskStatus::Completed => StatusView::Completed,
            TaskStatus::Failed => StatusView::Failed,
        }
    }
}

/// The scheduler's record of one experiment.
#[derive(Debug)]
pub struct TaskState {
    pub config: ExperimentConfig,
    pub status: TaskStatus,
    pub attempts_used: u32,
    pub max_attempts: u32,
}

/// A task record with its status viewed.
pub struct TaskView {
    pub config: ExperimentConfig,
    pub status: StatusView,
    pub attempts_used: u32,
    pub max_attempts: u32,
}

impl View for TaskState {
    type V = TaskView;

    open spec fn view(&self) -> TaskView {
        TaskView {
            config: self.config,
            status: self.status@,
            attempts_used: self.attempts_used,
            max_attempts: self.max_attempts,
        }
    }
}

/// The scheduler as the contracts see it: the clock, the tasks in the order
/// of their ids, and the stored results.
pub struct SchedulerView {
    pub now: u64,
    pub tasks: Seq<(Seq<char>, TaskView)>,
    pub results: Seq<(Seq<char>, ExperimentResult)>,
}

/// Leases experiments to workers, expires leases, retries up to a limit and
/// stores each experiment's result once.
#[derive(Debug)]
pub struct ExperimentScheduler {
    now: u64,
    tasks: Vec<(String, TaskState)>,
    results: Vec<(String, ExperimentResult)>,
}

impl View for ExperimentScheduler {
    type V = SchedulerView;

    closed spec fn view(&self) -> SchedulerView {
        SchedulerView {
            now: self.now,
            tasks: self.tasks@.map_values(|e: (String, TaskState)| (e.0@, e.1@)),
            results: self.results@.map_values(|e: (String, ExperimentResult)| (e.0@, e.1)),
        }
    }
}

/// The attempt counters and the status of a task agree: a pending task has
/// attempts left, a leased one holds the latest attempt.
pub open spec fn task_ok(t: TaskView) -> bool {
    &&& t.max_attempts > 0
    &&& t.attempts_used <= t.max_attempts
    &&& match t.status {
        StatusView::Pending => t.attempts_used < t.max_attempts,
        StatusView::Leased { attempt, .. } => attempt == t.attempts_used && attempt >= 1,
        _ => true,
    }
}

/// The scheduler's invariant: tasks sorted by id, each filed under its
/// config's id and consistent, and results with distinct ids.
pub open spec fn scheduler_wf(v: SchedulerView) -> bool {
    &&& keys_sorted(v.tasks)
    &&& forall|i: int| 0 <= i < v.tasks.len() ==> task_ok(#[trigger] v.tasks[i].1) && v.tasks[i].1.config.id@ == v.tasks[i].0
    &&& keys_unique(v.results)
}

/// The first pending task in id order.
pub open spec fn first_pending(s: Seq<(Seq<char>, TaskView)>) -> Option<int> {
    if exists|i: int| 0 <= i < s.len() && #[trigger] s[i].1.status is Pending {
        Some(choose|i: int| 0 <= i < s.len() && #[trigger] s[i].1.status is Pending
            && forall|j: int| 0 <= j < i ==> !(#[trigger] s[j].1.status is Pending))
    } else {
        None
    }
}

/// A fresh task for `config`.
pub open spec fn new_task(config: ExperimentConfig, max_attempts: u32) -> TaskView {
    TaskView { config, status: StatusView::Pending, attempts_used: 0, max_attempts }
}

/// `add_experiment`: refuse a blank id or a zero attempt limit, else file a
/// fresh pending task under the id, replacing any task with that id.
pub open spec fn spec_add(v: SchedulerView, config: ExperimentConfig, max_attempts: u32) -> (Result<(), SchedulerError>, SchedulerView) {
    if is_blank(config.id@) || max_attempts == 0 {
        (Err(SchedulerError::InvalidTask), v)
    } else {
        (Ok(()), SchedulerView { tasks: put_sorted(v.tasks, config.id@, new_task(config, max_attempts)), ..v })
    }
}

/// A task after the clock moved to `now`: a lease that expired at or before
/// `now` fails the task when it was the last attempt, else makes it pending.
pub open spec fn expire_task(t: TaskView, now: u64) -> TaskView {
    match t.status {
        StatusView::Leased { attempt, expires_at, .. } => if expires_at > now {
            t
        } else if attempt >= t.max_attempts {
            TaskView { status: StatusView::Failed, ..t }
        } else {
            TaskView { status: StatusView::Pending, ..t }
        },
        _ => t,
    }
}

/// `advance_to`: set the clock and expire leases.
pub open spec fn spec_advance(v: SchedulerView, now: u64) -> SchedulerView {
    SchedulerView {
        now,
        tasks: Seq::new(v.tasks.len(), |i: int| (v.tasks[i].0, expire_task(v.tasks[i].1, now))),
        results: v.results,
    }
}

/// `lease_next`: lease the first pending task in id order to `worker` for
/// `ttl` time units, as its next attempt; `None` when nothing is pending.
pub open spec fn spec_lease(v: SchedulerView, worker: Seq<char>, ttl: u64) -> (Option<(Seq<char>, u32, ExperimentConfig)>, SchedulerView) {
    match first_pending(v.tasks) {
        None => (None, v),
        Some(i) => {
            let t = v.tasks[i].1;
            let attempt = (t.attempts_used + 1) as u32;
            let leased = TaskView {
                status: StatusView::Leased { worker, attempt, expires_at: (v.now + ttl) as u64 },
                attempts_used: attempt,
                ..t
            };
            (Some((v.tasks[i].0, attempt, t.config)), SchedulerView { tasks: v.tasks.update(i, (v.tasks[i].0, leased)), ..v })
        },
    }
}

/// `complete`: a result already stored for `id` answers an equal result with
/// `DuplicateIgnored` and any other with `ResultConflict`; otherwise the task
/// must exist and be leased for this very attempt, and then it is completed
/// and the result stored.
pub open spec fn spec_complete(v: SchedulerView, id: Seq<char>, attempt: u32, result: ExperimentResult) -> (Result<CompletionOutcome, SchedulerError>, SchedulerView) {
    match find_key(v.results, id) {
        Some(i) => if same_result(v.results[i].1, result) {
            (Ok(CompletionOutcome::DuplicateIgnored), v)
        } else {
            (Err(SchedulerError::ResultConflict), v)
        },
        None => match find_key(v.tasks, id) {
            None => (Err(SchedulerError::UnknownTask), v),
            Some(j) => match v.tasks[j].1.status {
                StatusView::Leased { attempt: leased, .. } => if leased == attempt {
                    (Ok(CompletionOutcome::Stored), SchedulerView {
                        tasks: v.tasks.update(j, (v.tasks[j].0, TaskView { status: StatusView::Completed, ..v.tasks[j].1 })),
                        results: v.results.push((id, result)),
                        ..v
                    })
                } else {
                    (Err(SchedulerError::AttemptMismatch), v)
                },
                _ => (Err(SchedulerError::AttemptMismatch), v),
            },
        },
    }
}

} // verus!

verus! {

impl ExperimentScheduler {
    /// An empty scheduler at time zero.
    pub fn new() -> (r: ExperimentScheduler)
        ensures
            r@.now == 0,
            r@.tasks.len() == 0,
            r@.results.len() == 0,
            scheduler_wf(r@),
    {
        let r = ExperimentScheduler { now: 0, tasks: Vec::new(), results: Vec::new() };
        assert(r@.tasks =~= Seq::empty());
        assert(r@.results =~= Seq::empty());
        r
    }

    /// The position of the task filed under `id`.
    fn task_index(&self, id: &str) -> (r: Option<usize>)
        requires
            scheduler_wf(self@),
        ensures
            match r {
                Some(i) => find_key(self@.tasks, id@) == Some(i as int),
                None => find_key(self@.tasks, id@) is None,
            },
    {
        proof {
            lemma_sorted_unique(self@.tasks);
        }
        for i in 0..self.tasks.len()
            invariant
                scheduler_wf(self@),
                keys_unique(self@.tasks),
                forall|k: int| 0 <= k < i ==> #[trigger] self@.tasks[k].0 != id@,
        {
            assert(self@.tasks[i as int].0 == self.tasks@[i as int].0@);
            if str_eq(self.tasks[i].0.as_str(), id) {
                proof {
                    lemma_find_key_at(self@.tasks, i as int);
                }
                return Some(i);
            }
        }
        None
    }

    /// The position of the result stored under `id`.
    fn result_index(&self, id: &str) -> (r: Option<usize>)
        requires
            scheduler_wf(self@),
        ensures
            match r {
                Some(i) => find_key(self@.results, id@) == Some(i as int),
                None => find_key(self@.results, id@) is None,
            },
    {
        for i in 0..self.results.len()
            invariant
                scheduler_wf(self@),
                forall|k: int| 0 <= k < i ==> #[trigger] self@.results[k].0 != id@,
        {
            assert(self@.results[i as int].0 == self.results@[i as int].0@);
            if str_eq(self.results[i].0.as_str(), id) {
                proof {
                    lemma_find_key_at(self@.results, i as int);
                }
                return Some(i);
            }
        }
        None
    }

    /// The status of the task filed under `id`.
    pub fn status(&self, id: &str) -> (r: Option<&TaskStatus>)
        requires
            scheduler_wf(self@),
        ensures
            match find_key(self@.tasks, id@) {
                Some(i) => r matches Some(s) && s@ == self@.tasks[i].1.status,
                None => r is None,
            },
    {
        match self.task_index(id) {
            Some(i) => Some(&self.tasks[i].1.status),
            None => None,
        }
    }

    /// The result stored under `id`.
    pub fn result(&self, id: &str) -> (r: Option<&ExperimentResult>)
        requires
            scheduler_wf(self@),
        ensures
            match find_key(self@.results, id@) {
                Some(i) => r matches Some(x) && *x == self@.results[i].1,
                None => r is None,
            },
    {
        match self.result_index(id) {
            Some(i) => Some(&self.results[i].1),
            None => None,
        }
    }
}

impl Default for ExperimentScheduler {
    fn default() -> (r: ExperimentScheduler)
        ensures
            r@.now == 0,
            r@.tasks.len() == 0,
            r@.results.len() == 0,
            scheduler_wf(r@),
    {
        ExperimentScheduler::new()
    }
}

} // verus!

verus! {

impl ExperimentScheduler {
    /// Files a pending experiment under its id, replacing any task with that
    /// id; refuses a blank id and a zero attempt limit.
    pub fn add_experiment(&mut self, config: ExperimentConfig, max_attempts: u32) -> (r: Result<(), SchedulerError>)
        requires
            scheduler_wf(old(self)@),
        ensures
            r == spec_add(old(self)@, config, max_attempts).0,
            final(self)@ == spec_add(old(self)@, config, max_attempts).1,
            scheduler_wf(final(self)@),
    {
        if blank(config.id.as_str()) || max_attempts == 0 {
            return Err(SchedulerError::InvalidTask);
        }
        let ghost k = config.id@;
        let ghost pre = self@;
        let key_chars = chars_of(config.id.as_str());
        let n = self.tasks.len();
        let mut p: usize = 0;
        assert(pre.tasks.skip(0) =~= pre.tasks);
        while p < n && chars_lt(&chars_of(self.tasks[p].0.as_str()), &key_chars)
            invariant
                n == self.tasks.len(),
                self@ == pre,
                key_chars@ == k,
                p <= n,
                insert_position(pre.tasks, k) == p + insert_position(pre.tasks.skip(p as int), k),
            decreases n - p,
        {
            assert(pre.tasks[p as int].0 == self.tasks@[p as int].0@);
            assert(pre.tasks.skip(p as int)[0] == pre.tasks[p as int]);
            assert(pre.tasks.skip(p as int).drop_first() =~= pre.tasks.skip(p + 1));
            p = p + 1;
        }
        proof {
            if p < n {
                assert(pre.tasks[p as int].0 == self.tasks@[p as int].0@);
                assert(pre.tasks.skip(p as int)[0] == pre.tasks[p as int]);
            }
        }
        assert(insert_position(pre.tasks, k) == p);
        let same = p < n && str_eq(self.tasks[p].0.as_str(), config.id.as_str());
        let key = config.id.clone();
        let state = TaskState { config, status: TaskStatus::Pending, attempts_used: 0, max_attempts };
        proof {
            assert(state@ == new_task(config, max_attempts));
            if p < n {
                assert(pre.tasks[p as int].0 == self.tasks@[p as int].0@);
            }
        }
        if same {
            self.tasks.set(p, (key, state));
        } else {
            self.tasks.insert(p, (key, state));
        }
        proof {
            let spec = spec_add(pre, config, max_attempts).1;
            assert(self@.tasks =~= spec.tasks);
            lemma_put_sorted(pre.tasks, k, new_task(config, max_attempts));
            assert forall|i: int| 0 <= i < self@.tasks.len() implies task_ok(#[trigger] self@.tasks[i].1)
                && self@.tasks[i].1.config.id@ == self@.tasks[i].0 by {
                if same {
                    if i != p {
                        assert(self@.tasks[i] == pre.tasks[i]);
                    }
                } else {
                    if i < p {
                        assert(self@.tasks[i] == pre.tasks[i]);
                    } else if i > p {
                        assert(self@.tasks[i] == pre.tasks[i - 1]);
                    }
                }
            }
        }
        Ok(())
    }

    /// Moves the clock to `now` and expires the leases that ended by then.
    pub fn advance_to(&mut self, now: u64)
        requires
            scheduler_wf(old(self)@),
        ensures
            final(self)@ == spec_advance(old(self)@, now),
            scheduler_wf(final(self)@),
    {
        let ghost pre = self@;
        self.now = now;
        let n = self.tasks.len();
        for i in 0..n
            invariant
                n == self.tasks.len() == pre.tasks.len(),
                self@.now == now,
                self@.results == pre.results,
                scheduler_wf(pre),
                forall|k: int| 0 <= k < i ==> #[trigger] self@.tasks[k] == (pre.tasks[k].0, expire_task(pre.tasks[k].1, now)),
                forall|k: int| i <= k < n ==> #[trigger] self@.tasks[k] == pre.tasks[k],
        {
            let new_status: Option<TaskStatus> = match &self.tasks[i].1.status {
                TaskStatus::Leased { attempt, expires_at, .. } => if *expires_at > now {
                    None
                } else if *attempt >= self.tasks[i].1.max_attempts {
                    Some(TaskStatus::Failed)
                } else {
                    Some(TaskStatus::Pending)
                },
                _ => None,
            };
            assert(self@.tasks[i as int] == (self.tasks@[i as int].0@, self.tasks@[i as int].1@));
            let ghost prev = self.tasks@;
            let ghost prev_view = self@;
            assert(forall|k: int| 0 <= k < n ==> #[trigger] prev_view.tasks[k] == (prev[k].0@, prev[k].1@));
            if let Some(status) = new_status {
                let key = self.tasks[i].0.clone();
                let config = self.tasks[i].1.config.duplicate();
                let used = self.tasks[i].1.attempts_used;
                let max = self.tasks[i].1.max_attempts;
                self.tasks.set(i, (key, TaskState { config, status, attempts_used: used, max_attempts: max }));
            }
            proof {
                assert forall|k: int| 0 <= k < n && k != i implies #[trigger] self.tasks@[k] == prev[k] by {}
                assert forall|k: int| 0 <= k < n && k != i implies #[trigger] self@.tasks[k] == (prev[k].0@, prev[k].1@) by {
                    assert(self.tasks@[k] == prev[k]);
                }
                assert(self@.tasks[i as int] == (pre.tasks[i as int].0, expire_task(pre.tasks[i as int].1, now)));
                assert forall|k: int| 0 <= k < i + 1 implies #[trigger] self@.tasks[k] == (pre.tasks[k].0, expire_task(pre.tasks[k].1, now)) by {
                    if k < i {
                        assert(self@.tasks[k] == (prev[k].0@, prev[k].1@));
                        assert(prev_view.tasks[k] == (prev[k].0@, prev[k].1@));
                    }
                }
                assert forall|k: int| i + 1 <= k < n implies #[trigger] self@.tasks[k] == pre.tasks[k] by {
                    assert(self@.tasks[k] == (prev[k].0@, prev[k].1@));
                    assert(prev_view.tasks[k] == (prev[k].0@, prev[k].1@));
                }
            }
        }
        proof {
            let spec = spec_advance(pre, now);
            assert(self@.tasks =~= spec.tasks);
            assert forall|i: int, j: int| 0 <= i < j < self@.tasks.len() implies seq_lt(#[trigger] self@.tasks[i].0, #[trigger] self@.tasks[j].0) by {
                assert(seq_lt(pre.tasks[i].0, pre.tasks[j].0));
            }
            assert forall|i: int| 0 <= i < self@.tasks.len() implies task_ok(#[trigger] self@.tasks[i].1)
                && self@.tasks[i].1.config.id@ == self@.tasks[i].0 by {
                assert(task_ok(pre.tasks[i].1));
            }
        }
    }
}

} // verus!

verus! {

impl ExperimentScheduler {
    /// Leases the pending task whose id comes first to `worker`, until
    /// `ttl` time units from now, as the task's next attempt.
    pub fn lease_next(&mut self, worker: &str, ttl: u64) -> (r: Option<LeasedExperiment>)
        requires
            scheduler_wf(old(self)@),
            first_pending(old(self)@.tasks) is Some ==> old(self)@.now + ttl <= u64::MAX,
        ensures
            match spec_lease(old(self)@, worker@, ttl).0 {
                None => r is None,
                Some((id, attempt, config)) => r matches Some(l) && l.id@ == id && l.attempt == attempt && l.config == config,
            },
            final(self)@ == spec_lease(old(self)@, worker@, ttl).1,
            scheduler_wf(final(self)@),
            spec_lease(old(self)@, worker@, ttl).0 matches Some((id, attempt, config)) ==> lease_held(
                final(self)@,
                id,
                worker@,
                attempt,
                old(self)@.now + ttl,
            ),
    {
        let ghost pre = self@;
        let n = self.tasks.len();
        let mut index: usize = 0;
        while index < n && !matches!(self.tasks[index].1.status, TaskStatus::Pending)
            invariant
                n == self.tasks.len(),
                self@ == pre,
                index <= n,
                forall|j: int| 0 <= j < index ==> !(#[trigger] pre.tasks[j].1.status is Pending),
            decreases n - index,
        {
            assert(pre.tasks[index as int] == (self.tasks@[index as int].0@, self.tasks@[index as int].1@));
            index = index + 1;
        }
        if index == n {
            return None;
        }
        let i = index;
        proof {
            let k = i as int;
            assert(pre.tasks[k] == (self.tasks@[k].0@, self.tasks@[k].1@));
            assert(pre.tasks[k].1.status is Pending);
            let c = choose|c: int| 0 <= c < pre.tasks.len() && #[trigger] pre.tasks[c].1.status is Pending
                && forall|j: int| 0 <= j < c ==> !(#[trigger] pre.tasks[j].1.status is Pending);
            if c < k {
                assert(!(pre.tasks[c].1.status is Pending));
            } else if c > k {
                assert(!(pre.tasks[k].1.status is Pending));
            }
            assert(first_pending(pre.tasks) == Some(k));
            assert(task_ok(pre.tasks[k].1));
        }
        let attempt = self.tasks[i].1.attempts_used + 1;
        let expires_at = self.now + ttl;
        let key = self.tasks[i].0.clone();
        let id = self.tasks[i].0.clone();
        let config = self.tasks[i].1.config.duplicate();
        let leased_config = self.tasks[i].1.config.duplicate();
        let max = self.tasks[i].1.max_attempts;
        let ghost prev = self.tasks@;
        let status = TaskStatus::Leased { worker: worker.to_owned(), attempt, expires_at };
        self.tasks.set(i, (key, TaskState { config, status, attempts_used: attempt, max_attempts: max }));
        proof {
            let spec = spec_lease(pre, worker@, ttl).1;
            assert forall|k: int| 0 <= k < n && k != i implies #[trigger] self@.tasks[k] == pre.tasks[k] by {
                assert(self.tasks@[k] == prev[k]);
            }
            assert(self@.tasks =~= spec.tasks);
            assert forall|a: int, b: int| 0 <= a < b < self@.tasks.len() implies seq_lt(#[trigger] self@.tasks[a].0, #[trigger] self@.tasks[b].0) by {
                assert(seq_lt(pre.tasks[a].0, pre.tasks[b].0));
            }
            assert forall|k: int| 0 <= k < self@.tasks.len() implies task_ok(#[trigger] self@.tasks[k].1)
                && self@.tasks[k].1.config.id@ == self@.tasks[k].0 by {
                assert(task_ok(pre.tasks[k].1));
            }
        }
        proof {
            lease_runs_until_now_plus_ttl(pre, worker@, ttl, 0);
        }
        Some(LeasedExperiment { id, attempt, config: leased_config })
    }

    /// Records the result of a leased attempt, once per experiment.
    pub fn complete(&mut self, id: &str, attempt: u32, result: ExperimentResult) -> (r: Result<CompletionOutcome, SchedulerError>)
        requires
            scheduler_wf(old(self)@),
        ensures
            r == spec_complete(old(self)@, id@, attempt, result).0,
            final(self)@ == spec_complete(old(self)@, id@, attempt, result).1,
            scheduler_wf(final(self)@),
    {
        let ghost pre = self@;
        if let Some(i) = self.result_index(id) {
            assert(pre.results[i as int] == (self.results@[i as int].0@, self.results@[i as int].1));
            if self.results[i].1.same_as(&result) {
                return Ok(CompletionOutcome::DuplicateIgnored);
            }
            return Err(SchedulerError::ResultConflict);
        }
        let i = match self.task_index(id) {
            Some(i) => i,
            None => {
                return Err(SchedulerError::UnknownTask);
            },
        };
        assert(pre.tasks[i as int] == (self.tasks@[i as int].0@, self.tasks@[i as int].1@));
        let leased_attempt = match &self.tasks[i].1.status {
            TaskStatus::Leased { attempt, .. } => *attempt,
            _ => {
                return Err(SchedulerError::AttemptMismatch);
            },
        };
        if leased_attempt != attempt {
            return Err(SchedulerError::AttemptMismatch);
        }
        let key = self.tasks[i].0.clone();
        let config = self.tasks[i].1.config.duplicate();
        let used = self.tasks[i].1.attempts_used;
        let max = self.tasks[i].1.max_attempts;
        let ghost prev = self.tasks@;
        let ghost prev_results = self.results@;
        self.tasks.set(i, (key, TaskState { config, status: TaskStatus::Completed, attempts_used: used, max_attempts: max }));
        self.results.push((id.to_owned(), result));
        proof {
            let spec = spec_complete(pre, id@, attempt, result).1;
            let n = pre.tasks.len();
            assert forall|k: int| 0 <= k < n && k != i implies #[trigger] self@.tasks[k] == pre.tasks[k] by {
                assert(self.tasks@[k] == prev[k]);
            }
            assert(self@.tasks =~= spec.tasks);
            assert forall|k: int| 0 <= k < prev_results.len() implies #[trigger] self@.results[k] == pre.results[k] by {
                assert(self.results@[k] == prev_results[k]);
            }
            assert(self@.results =~= spec.results);
            assert forall|a: int, b: int| 0 <= a < b < self@.tasks.len() implies seq_lt(#[trigger] self@.tasks[a].0, #[trigger] self@.tasks[b].0) by {
                assert(seq_lt(pre.tasks[a].0, pre.tasks[b].0));
            }
            assert forall|k: int| 0 <= k < self@.tasks.len() implies task_ok(#[trigger] self@.tasks[k].1)
                && self@.tasks[k].1.config.id@ == self@.tasks[k].0 by {
                assert(task_ok(pre.tasks[k].1));
            }
            assert forall|a: int, b: int| 0 <= a < b < self@.results.len() implies #[trigger] self@.results[a].0 != #[trigger] self@.results[b].0 by {
                if b == prev_results.len() {
                    assert(pre.results[a].0 != id@);
                }
            }
        }
        Ok(CompletionOutcome::Stored)
    }
}

} // verus!

verus! {

/// `post` keeps every result of `pre`, in place.
pub open spec fn results_kept(pre: SchedulerView, post: SchedulerView) -> bool {
    &&& pre.results.len() <= post.results.len()
    &&& forall|i: int| 0 <= i < pre.results.len() ==> #[trigger] post.results[i] == pre.results[i]
}

/// `post` has the tasks of `pre` at the same places, and every task that was
/// completed or failed still is.
pub open spec fn terminal_kept(pre: SchedulerView, post: SchedulerView) -> bool {
    &&& pre.tasks.len() == post.tasks.len()
    &&& forall|i: int| 0 <= i < pre.tasks.len() ==> #[trigger] post.tasks[i].0 == pre.tasks[i].0
    &&& forall|i: int| 0 <= i < pre.tasks.len() && (pre.tasks[i].1.status is Completed || pre.tasks[i].1.status is Failed)
        ==> #[trigger] post.tasks[i].1.status == pre.tasks[i].1.status
}

/// An experiment that was just added is pending under its id.
pub proof fn added_experiment_is_pending(v: SchedulerView, config: ExperimentConfig, max_attempts: u32)
    requires
        scheduler_wf(v),
        !is_blank(config.id@),
        max_attempts > 0,
    ensures
        ({
            let post = spec_add(v, config, max_attempts).1;
            &&& spec_add(v, config, max_attempts).0 is Ok
            &&& find_key(post.tasks, config.id@) matches Some(i) && post.tasks[i].1.status is Pending
                && post.tasks[i].1.attempts_used == 0 && post.tasks[i].1.max_attempts == max_attempts
        }),
{
    let post = spec_add(v, config, max_attempts).1;
    lemma_put_sorted(v.tasks, config.id@, new_task(config, max_attempts));
    lemma_insert_position(v.tasks, config.id@);
    lemma_sorted_unique(post.tasks);
    let p = insert_position(v.tasks, config.id@) as int;
    assert(post.tasks[p].0 == config.id@);
    lemma_find_key_at(post.tasks, p);
}

/// Once a result is stored for an experiment, completing it again returns
/// `DuplicateIgnored` for an equal result and `ResultConflict` for any other,
/// and changes nothing, whatever the attempt.
pub proof fn completion_is_idempotent(
    v: SchedulerView,
    id: Seq<char>,
    attempt: u32,
    result: ExperimentResult,
    again_attempt: u32,
    again: ExperimentResult,
)
    requires
        scheduler_wf(v),
        spec_complete(v, id, attempt, result).0 == Ok::<CompletionOutcome, SchedulerError>(CompletionOutcome::Stored),
    ensures
        ({
            let stored = spec_complete(v, id, attempt, result).1;
            spec_complete(stored, id, again_attempt, again) == if same_result(result, again) {
                (Ok::<CompletionOutcome, SchedulerError>(CompletionOutcome::DuplicateIgnored), stored)
            } else {
                (Err::<CompletionOutcome, SchedulerError>(SchedulerError::ResultConflict), stored)
            }
        }),
{
    let stored = spec_complete(v, id, attempt, result).1;
    assert(find_key(v.results, id) is None);
    assert(stored.results == v.results.push((id, result)));
    assert(keys_unique(stored.results)) by {
        assert forall|a: int, b: int| 0 <= a < b < stored.results.len() implies #[trigger] stored.results[a].0 != #[trigger] stored.results[b].0 by {
            if b == v.results.len() {
                assert(stored.results[a] == v.results[a]);
                assert(v.results[a].0 != id);
            } else {
                assert(stored.results[a] == v.results[a]);
                assert(stored.results[b] == v.results[b]);
            }
        }
    }
    lemma_find_key_at(stored.results, v.results.len() as int);
}

/// No operation loses or changes a stored result.
pub proof fn stored_results_are_kept(
    v: SchedulerView,
    config: ExperimentConfig,
    max_attempts: u32,
    now: u64,
    worker: Seq<char>,
    ttl: u64,
    id: Seq<char>,
    attempt: u32,
    result: ExperimentResult,
)
    requires
        scheduler_wf(v),
    ensures
        results_kept(v, spec_add(v, config, max_attempts).1),
        results_kept(v, spec_advance(v, now)),
        results_kept(v, spec_lease(v, worker, ttl).1),
        results_kept(v, spec_complete(v, id, attempt, result).1),
{
}

/// Leasing, moving the clock and completing never undo a completion or a
/// failure.
pub proof fn terminal_statuses_are_kept(v: SchedulerView, now: u64, worker: Seq<char>, ttl: u64, id: Seq<char>, attempt: u32, result: ExperimentResult)
    requires
        scheduler_wf(v),
    ensures
        terminal_kept(v, spec_advance(v, now)),
        terminal_kept(v, spec_lease(v, worker, ttl).1),
        terminal_kept(v, spec_complete(v, id, attempt, result).1),
{
    if let Some(i) = first_pending(v.tasks) {
        lemma_first_pending(v.tasks);
        assert(v.tasks[i].1.status is Pending);
    }
}

proof fn lemma_first_pending(s: Seq<(Seq<char>, TaskView)>)
    ensures
        first_pending(s) matches Some(i) ==> 0 <= i < s.len() && s[i].1.status is Pending
            && forall|j: int| 0 <= j < i ==> !(#[trigger] s[j].1.status is Pending),
        first_pending(s) is None ==> forall|j: int| 0 <= j < s.len() ==> !(#[trigger] s[j].1.status is Pending),
{
    if exists|i: int| 0 <= i < s.len() && #[trigger] s[i].1.status is Pending {
        let k = choose|i: int| 0 <= i < s.len() && #[trigger] s[i].1.status is Pending;
        lemma_least_pending(s, k);
    }
}

proof fn lemma_least_pending(s: Seq<(Seq<char>, TaskView)>, k: int)
    requires
        0 <= k < s.len(),
        s[k].1.status is Pending,
    ensures
        exists|i: int| 0 <= i < s.len() && #[trigger] s[i].1.status is Pending
            && forall|j: int| 0 <= j < i ==> !(#[trigger] s[j].1.status is Pending),
    decreases k,
{
    if exists|j: int| 0 <= j < k && #[trigger] s[j].1.status is Pending {
        let j = choose|j: int| 0 <= j < k && #[trigger] s[j].1.status is Pending;
        lemma_least_pending(s, j);
    } else {
        assert(forall|j: int| 0 <= j < k ==> !(#[trigger] s[j].1.status is Pending));
    }
}

/// After the clock moves to `now`, no lease that ended by `now` is still held.
pub proof fn advance_expires_due_leases(v: SchedulerView, now: u64)
    requires
        scheduler_wf(v),
    ensures
        ({
            let post = spec_advance(v, now);
            &&& scheduler_wf(post)
            &&& forall|i: int| 0 <= i < post.tasks.len() ==> (#[trigger] post.tasks[i].1.status matches StatusView::Leased { expires_at, .. } ==> expires_at > now)
        }),
{
    let post = spec_advance(v, now);
    assert forall|i: int, j: int| 0 <= i < j < post.tasks.len() implies seq_lt(#[trigger] post.tasks[i].0, #[trigger] post.tasks[j].0) by {
        assert(seq_lt(v.tasks[i].0, v.tasks[j].0));
    }
    assert forall|i: int| 0 <= i < post.tasks.len() implies task_ok(#[trigger] post.tasks[i].1) && post.tasks[i].1.config.id@ == post.tasks[i].0 by {
        assert(task_ok(v.tasks[i].1));
    }
}

/// A lease goes to the pending task whose id comes first, as the next of
/// its attempts, which never exceeds the task's attempt limit.
pub proof fn lease_takes_first_pending_id(v: SchedulerView, worker: Seq<char>, ttl: u64)
    requires
        scheduler_wf(v),
    ensures
        spec_lease(v, worker, ttl).0 matches Some((id, attempt, config)) ==> {
            &&& find_key(v.tasks, id) matches Some(i) && v.tasks[i].1.status is Pending
                && attempt == v.tasks[i].1.attempts_used + 1 && attempt <= v.tasks[i].1.max_attempts
            &&& forall|j: int| 0 <= j < v.tasks.len() && #[trigger] v.tasks[j].1.status is Pending && v.tasks[j].0 != id
                ==> seq_lt(id, v.tasks[j].0)
        },
        spec_lease(v, worker, ttl).0 is None <==> forall|j: int| 0 <= j < v.tasks.len() ==> !(#[trigger] v.tasks[j].1.status is Pending),
{
    lemma_first_pending(v.tasks);
    if let Some(i) = first_pending(v.tasks) {
        lemma_sorted_unique(v.tasks);
        lemma_find_key_at(v.tasks, i);
        assert(task_ok(v.tasks[i].1));
        let id = v.tasks[i].0;
        assert forall|j: int| 0 <= j < v.tasks.len() && #[trigger] v.tasks[j].1.status is Pending && v.tasks[j].0 != id
            implies seq_lt(id, v.tasks[j].0) by {
            if j < i {
                assert(!(v.tasks[j].1.status is Pending));
            } else if j == i {
            } else {
                assert(seq_lt(v.tasks[i].0, v.tasks[j].0));
            }
        }
    }
}

/// The task filed under `id` in `v` is leased to `worker` for `attempt`,
/// until `expires_at`.
pub open spec fn lease_held(v: SchedulerView, id: Seq<char>, worker: Seq<char>, attempt: u32, expires_at: int) -> bool {
    find_key(v.tasks, id) matches Some(i) && v.tasks[i].1.status matches StatusView::Leased {
        worker: w,
        attempt: a,
        expires_at: e,
    } && w == worker && a == attempt && e == expires_at
}

/// A lease runs until the clock at which it was given plus `ttl`: right
/// after a lease, the leased task is held by `worker` for the returned
/// attempt until `now + ttl`, and moving the clock to any time `t` before
/// that leaves the lease in place.
pub proof fn lease_runs_until_now_plus_ttl(v: SchedulerView, worker: Seq<char>, ttl: u64, t: u64)
    requires
        scheduler_wf(v),
        first_pending(v.tasks) is Some ==> v.now + ttl <= u64::MAX,
    ensures
        spec_lease(v, worker, ttl).0 matches Some((id, attempt, config)) ==> {
            let post = spec_lease(v, worker, ttl).1;
            &&& lease_held(post, id, worker, attempt, v.now + ttl)
            &&& t < v.now + ttl ==> lease_held(spec_advance(post, t), id, worker, attempt, v.now + ttl)
        },
{
    lemma_first_pending(v.tasks);
    if let Some(i) = first_pending(v.tasks) {
        let post = spec_lease(v, worker, ttl).1;
        assert(post.tasks.len() == v.tasks.len());
        assert forall|a: int| 0 <= a < post.tasks.len() implies #[trigger] post.tasks[a].0 == v.tasks[a].0 by {}
        assert forall|a: int, b: int| 0 <= a < b < post.tasks.len() implies seq_lt(
            #[trigger] post.tasks[a].0,
            #[trigger] post.tasks[b].0,
        ) by {
            assert(seq_lt(v.tasks[a].0, v.tasks[b].0));
        }
        lemma_sorted_unique(post.tasks);
        lemma_find_key_at(post.tasks, i);
        let adv = spec_advance(post, t);
        assert(adv.tasks.len() == post.tasks.len());
        assert forall|a: int, b: int| 0 <= a < b < adv.tasks.len() implies #[trigger] adv.tasks[a].0
            != #[trigger] adv.tasks[b].0 by {
            assert(adv.tasks[a].0 == post.tasks[a].0);
            assert(adv.tasks[b].0 == post.tasks[b].0);
        }
        assert(adv.tasks[i].0 == post.tasks[i].0);
        lemma_find_key_at(adv.tasks, i);
    }
}

} // verus!
