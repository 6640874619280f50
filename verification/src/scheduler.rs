//! A priority task queue with adaptive worker scaling.
#![verifier::loop_isolation(false)]

use vstd::prelude::*;

verus! {

/// Task priorities, lowest first.
#[derive(Debug, Clone, Copy, PartialEq, Eq, PartialOrd, Ord, Structural)]
pub enum TaskPriority {
    Idle,
    Low,
    Normal,
    High,
    Critical,
}

/// The numeric rank of a priority: `Idle` is 0, `Critical` is 4.
pub open spec fn spec_rank(p: TaskPriority) -> u8 {
    match p {
        TaskPriority::Idle => 0,
        TaskPriority::Low => 1,
        TaskPriority::Normal => 2,
        TaskPriority::High => 3,
        TaskPriority::Critical => 4,
    }
}

pub fn rank(p: TaskPriority) -> (res: u8)
    ensures
        res == spec_rank(p),
{
    match p {
        TaskPriority::Idle => 0,
        TaskPriority::Low => 1,
        TaskPriority::Normal => 2,
        TaskPriority::High => 3,
        TaskPriority::Critical => 4,
    }
}

/// A submitted task.
#[derive(Debug, Clone)]
pub struct Task {
    pub id: u64,
    pub priority: TaskPriority,
    pub name: String,
}

/// A task queue; `poll` hands out the highest-priority task first, and
/// among equal priorities the one submitted first.
#[derive(Debug, Clone)]
pub struct TaskScheduler {
    queue: Vec<Task>,
    active_workers: usize,
    max_workers: usize,
    next_task_id: u64,
}

/// The observable content of a task.
pub open spec fn task_view(t: Task) -> (u64, TaskPriority, Seq<char>) {
    (t.id, t.priority, t.name@)
}

/// The index `poll` takes: the first task of highest priority.
pub open spec fn is_best(q: Seq<(u64, TaskPriority, Seq<char>)>, b: int) -> bool {
    &&& 0 <= b < q.len()
    &&& forall|j: int| 0 <= j < q.len() ==> spec_rank(#[trigger] q[j].1) <= spec_rank(q[b].1)
    &&& forall|j: int| 0 <= j < b ==> spec_rank(#[trigger] q[j].1) < spec_rank(q[b].1)
}

/// The number of workers for a scene of `n` nodes, capped at `max`.
pub open spec fn spec_workers(n: usize, max: usize) -> usize {
    let w: usize = if n <= 50 {
        1
    } else if n <= 500 {
        2
    } else if n <= 2000 {
        4
    } else {
        max
    };
    if w > max {
        max
    } else {
        w
    }
}

/// There is exactly one best index.
pub proof fn lemma_best_unique(q: Seq<(u64, TaskPriority, Seq<char>)>, a: int, b: int)
    requires
        is_best(q, a),
        is_best(q, b),
    ensures
        a == b,
{
    if a < b {
        assert(spec_rank(q[a].1) < spec_rank(q[b].1));
    }
    if b < a {
        assert(spec_rank(q[b].1) < spec_rank(q[a].1));
    }
}

impl TaskScheduler {
    /// The queued tasks, oldest first.
    pub closed spec fn queue_view(&self) -> Seq<(u64, TaskPriority, Seq<char>)> {
        self.queue@.map_values(|t: Task| task_view(t))
    }

    pub closed spec fn spec_active_workers(&self) -> usize {
        self.active_workers
    }

    pub closed spec fn spec_max_workers(&self) -> usize {
        self.max_workers
    }

    pub closed spec fn spec_next_id(&self) -> u64 {
        self.next_task_id
    }

    /// An empty scheduler allowing up to `max_workers` workers; task ids
    /// start at 1.
    pub fn new(max_workers: usize) -> (res: Self)
        ensures
            res.queue_view() == Seq::<(u64, TaskPriority, Seq<char>)>::empty(),
            res.spec_active_workers() == 0,
            res.spec_max_workers() == max_workers,
            res.spec_next_id() == 1,
    {
        let res = TaskScheduler { queue: Vec::new(), active_workers: 0, max_workers, next_task_id: 1 };
        assert(res.queue_view() =~= Seq::<(u64, TaskPriority, Seq<char>)>::empty());
        res
    }

    /// Queue a task and return its id, the next in sequence.
    pub fn submit(&mut self, name: String, priority: TaskPriority) -> (res: u64)
        requires
            old(self).spec_next_id() < u64::MAX,
        ensures
            res == old(self).spec_next_id(),
            final(self).spec_next_id() == res + 1,
            final(self).queue_view() == old(self).queue_view().push((res, priority, name@)),
            final(self).spec_active_workers() == old(self).spec_active_workers(),
            final(self).spec_max_workers() == old(self).spec_max_workers(),
    {
        let id = self.next_task_id;
        self.next_task_id += 1;
        let ghost n = name@;
        self.queue.push(Task { id, priority, name });
        assert(self.queue_view() =~= old(self).queue_view().push((id, priority, n)));
        id
    }

    /// Remove and return the first task of highest priority.
    pub fn poll(&mut self) -> (res: Option<Task>)
        ensures
            final(self).spec_next_id() == old(self).spec_next_id(),
            final(self).spec_active_workers() == old(self).spec_active_workers(),
            final(self).spec_max_workers() == old(self).spec_max_workers(),
            old(self).queue_view().len() == 0 ==> res is None && final(self).queue_view()
                == old(self).queue_view(),
            old(self).queue_view().len() > 0 ==> exists|b: int|
                is_best(old(self).queue_view(), b) && (res matches Some(t) && task_view(t) == old(self).queue_view()[b]) && final(self).queue_view() == old(self).queue_view().remove(b),
    {
        if self.queue.len() == 0 {
            return None;
        }
        let ghost q = self.queue_view();
        let mut best_idx: usize = 0;
        let mut best_rank = rank(self.queue[0].priority);
        let mut i: usize = 1;
        while i < self.queue.len()
            invariant
                q == self.queue_view(),
                1 <= i <= q.len(),
                best_idx < i,
                best_rank == spec_rank(q[best_idx as int].1),
                forall|j: int| 0 <= j < i ==> spec_rank(#[trigger] q[j].1) <= best_rank,
                forall|j: int| 0 <= j < best_idx ==> spec_rank(#[trigger] q[j].1) < best_rank,
            decreases q.len() - i,
        {
            let r = rank(self.queue[i].priority);
            if r > best_rank {
                best_idx = i;
                best_rank = r;
            }
            i += 1;
        }
        let t = self.queue.remove(best_idx);
        assert(self.queue_view() =~= q.remove(best_idx as int));
        assert(is_best(q, best_idx as int));
        Some(t)
    }

    /// Scale the active workers to the scene size: 1 up to 50 nodes, 2 up
    /// to 500, 4 up to 2000, the maximum beyond; never above the maximum.
    pub fn adapt_to_workload(&mut self, scene_node_count: usize)
        ensures
            final(self).spec_active_workers() == spec_workers(scene_node_count, old(self).spec_max_workers()),
            final(self).spec_max_workers() == old(self).spec_max_workers(),
            final(self).spec_next_id() == old(self).spec_next_id(),
            final(self).queue_view() == old(self).queue_view(),
    {
        self.active_workers = if scene_node_count <= 50 {
            1
        } else if scene_node_count <= 500 {
            2
        } else if scene_node_count <= 2000 {
            4
        } else {
            self.max_workers
        };
        if self.active_workers > self.max_workers {
            self.active_workers = self.max_workers;
        }
    }

    /// The current number of active workers.
    pub fn active_workers(&self) -> (res: usize)
        ensures
            res == self.spec_active_workers(),
    {
        self.active_workers
    }

    /// The number of queued tasks.
    pub fn pending_count(&self) -> (res: usize)
        ensures
            res == self.queue_view().len(),
    {
        self.queue.len()
    }
}

/// Scaling never exceeds the maximum number of workers.
pub proof fn lemma_workers_bounded(n: usize, max: usize)
    ensures
        spec_workers(n, max) <= max,
{
}

// ─── Pipeline work handed to worker threads ──────────────────────

/// A unit of pipeline work that a worker thread carries out.
#[derive(Debug)]
pub enum PipelineStage {
    /// Load an HTML or CSS resource from disk or the network.
    LoadResource { url: String },
    /// Tokenize and parse HTML bytes into a DOM tree.
    ParseHtml { url: String, bytes: Vec<u8> },
    /// Tokenize and parse CSS bytes into a stylesheet.
    ParseCss { url: String, bytes: Vec<u8> },
}

/// What a completed pipeline stage produced.
#[derive(Debug)]
pub enum TaskResult {
    /// The resources of a loaded page.
    ResourceLoaded(crate::loader::PageResources),
    /// A parsed DOM tree and how many tokens it was built from.
    HtmlParsed { url: String, dom: crate::dom::Dom, tokens_count: usize },
    /// A parsed stylesheet.
    CssParsed { url: String, stylesheet: crate::css_parser::Stylesheet },
}

/// A completed task as a worker reports it: its id and its result or the
/// reason it failed.
pub struct TaskMessage {
    pub task_id: u64,
    pub result: Result<TaskResult, String>,
}

} // verus!
