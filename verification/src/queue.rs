//! FIFO task queue for batch runs.

use std::collections::VecDeque;
use vstd::prelude::*;

verus! {

#[derive(Debug, Clone)]
pub struct QueueTask<T> {
    pub id: String,
    pub payload: T,
}

/// A plain first-in, first-out queue of identified tasks.
#[derive(Debug)]
pub struct TaskQueue<T> {
    tasks: VecDeque<QueueTask<T>>,
}

/// The ids of a run of tasks, in order.
pub open spec fn task_ids<T>(tasks: Seq<QueueTask<T>>) -> Seq<Seq<char>> {
    tasks.map_values(|task: QueueTask<T>| task.id@)
}

impl<T> View for TaskQueue<T> {
    type V = Seq<QueueTask<T>>;

    closed spec fn view(&self) -> Seq<QueueTask<T>> {
        self.tasks@
    }
}

impl<T> Default for TaskQueue<T> {
    fn default() -> (queue: Self)
        ensures
            queue@ == Seq::<QueueTask<T>>::empty(),
    {
        Self { tasks: VecDeque::new() }
    }
}

impl<T> TaskQueue<T> {
    pub fn new() -> (queue: Self)
        ensures
            queue@ == Seq::<QueueTask<T>>::empty(),
    {
        Self::default()
    }

    /// Add a task at the back.
    pub fn enqueue(&mut self, id: &str, payload: T)
        ensures
            final(self)@.len() == old(self)@.len() + 1,
            final(self)@.drop_last() == old(self)@,
            final(self)@.last().id@ == id@,
            final(self)@.last().payload == payload,
    {
        let task = QueueTask { id: id.to_string(), payload };
        proof {
            vstd::string::to_string_from_display_ensures_for_str(id, task.id);
        }
        self.tasks.push_back(task);
    }

    /// Take the task at the front, if any.
    pub fn dequeue(&mut self) -> (task: Option<QueueTask<T>>)
        ensures
            old(self)@.len() == 0 ==> task is None && final(self)@ == old(self)@,
            old(self)@.len() > 0 ==> task == Some(old(self)@[0]) && final(self)@ == old(
                self,
            )@.drop_first(),
    {
        self.tasks.pop_front()
    }

    /// Put a dequeued task back at the front, where it came from.
    ///
    /// For the one case a task leaves the queue and must not be run: the run
    /// stopped before submitting it. At the front rather than the back, so the
    /// order a batch was queued in survives: a drain records these as skipped
    /// in dequeue order, and that order is what a resume re-runs them in.
    pub fn put_back(&mut self, task: QueueTask<T>)
        ensures
            final(self)@ == seq![task] + old(self)@,
    {
        self.tasks.push_front(task);
    }

    pub fn peek(&self) -> (front: Option<&QueueTask<T>>)
        ensures
            self@.len() == 0 ==> front is None,
            self@.len() > 0 ==> front == Some(&self@[0]),
    {
        if self.tasks.len() == 0 {
            None
        } else {
            Some(&self.tasks[0])
        }
    }

    /// Ids of everything still queued, in dequeue order.
    pub fn ids(&self) -> (ids: Vec<String>)
        ensures
            ids@.map_values(|id: String| id@) == task_ids(self@),
    {
        let mut ids: Vec<String> = Vec::new();
        let mut i: usize = 0;
        while i < self.tasks.len()
            invariant
                i <= self.tasks@.len(),
                ids@.len() == i,
                forall|j: int| 0 <= j < i ==> ids@[j]@ == #[trigger] self.tasks@[j].id@,
            decreases self.tasks@.len() - i,
        {
            ids.push(self.tasks[i].id.clone());
            i += 1;
        }
        assert(ids@.map_values(|id: String| id@) =~= task_ids(self@));
        ids
    }

    pub fn len(&self) -> (len: usize)
        ensures
            len == self@.len(),
    {
        self.tasks.len()
    }

    pub fn is_empty(&self) -> (empty: bool)
        ensures
            empty == (self@.len() == 0),
    {
        self.tasks.len() == 0
    }

    pub fn clear(&mut self)
        ensures
            final(self)@ == Seq::<QueueTask<T>>::empty(),
    {
        self.tasks.clear();
    }
}

} // verus!
