//! The task queue: an ordered collection of download tasks with
//! enqueue / list / remove / update / sweep operations and the laws
//! that govern them.
use vstd::prelude::*;
use crate::models::{DownloadTask, TaskStatus, TaskView, Progress, is_finished, opt_str_view};

verus! {

/// The mathematical value of a task vector: the sequence of task values.
pub open spec fn task_views(v: Seq<DownloadTask>) -> Seq<TaskView> {
    v.map_values(|t: DownloadTask| t@)
}

/// The tasks of `s`, in order, without those whose identifier is `id`.
pub open spec fn without_id(s: Seq<TaskView>, id: Seq<char>) -> Seq<TaskView>
    decreases s.len(),
{
    if s.len() == 0 {
        Seq::empty()
    } else if s[0].id == id {
        without_id(s.drop_first(), id)
    } else {
        seq![s[0]] + without_id(s.drop_first(), id)
    }
}

/// The tasks of `s`, in order, without the completed and failed ones.
pub open spec fn without_finished(s: Seq<TaskView>) -> Seq<TaskView>
    decreases s.len(),
{
    if s.len() == 0 {
        Seq::empty()
    } else if is_finished(s[0].status) {
        without_finished(s.drop_first())
    } else {
        seq![s[0]] + without_finished(s.drop_first())
    }
}

/// How many tasks of `s` are currently being downloaded.
pub open spec fn count_downloading(s: Seq<TaskView>) -> int
    decreases s.len(),
{
    if s.len() == 0 {
        0int
    } else if s[0].status == TaskStatus::Downloading {
        1 + count_downloading(s.drop_first())
    } else {
        count_downloading(s.drop_first())
    }
}

/// The least index at or after `i` of a task with identifier `id`,
/// or the length of `s` when there is none.
pub open spec fn find_id_from(s: Seq<TaskView>, id: Seq<char>, i: int) -> int
    decreases s.len() - i,
{
    if 0 <= i < s.len() {
        if s[i].id == id {
            i
        } else {
            find_id_from(s, id, i + 1)
        }
    } else {
        s.len() as int
    }
}

/// A task value after a state transition: only status and error change.
pub open spec fn with_status(t: TaskView, status: TaskStatus, error: Option<Seq<char>>) -> TaskView {
    TaskView { status, error, ..t }
}

proof fn lemma_without_id_step(s: Seq<TaskView>, id: Seq<char>, i: int)
    requires
        0 <= i < s.len(),
    ensures
        s[i].id == id ==> without_id(s.skip(i), id) == without_id(s.skip(i + 1), id),
        s[i].id != id ==> without_id(s.skip(i), id) == seq![s[i]] + without_id(s.skip(i + 1), id),
{
    assert(s.skip(i).len() == s.len() - i);
    assert(s.skip(i)[0] == s[i]);
    assert(s.skip(i).drop_first() =~= s.skip(i + 1));
}

proof fn lemma_without_finished_step(s: Seq<TaskView>, i: int)
    requires
        0 <= i < s.len(),
    ensures
        is_finished(s[i].status) ==> without_finished(s.skip(i)) == without_finished(s.skip(i + 1)),
        !is_finished(s[i].status) ==> without_finished(s.skip(i)) == seq![s[i]] + without_finished(
            s.skip(i + 1),
        ),
{
    assert(s.skip(i).len() == s.len() - i);
    assert(s.skip(i)[0] == s[i]);
    assert(s.skip(i).drop_first() =~= s.skip(i + 1));
}

proof fn lemma_count_downloading_step(s: Seq<TaskView>, i: int)
    requires
        0 <= i < s.len(),
    ensures
        s[i].status == TaskStatus::Downloading ==> count_downloading(s.skip(i)) == 1
            + count_downloading(s.skip(i + 1)),
        s[i].status != TaskStatus::Downloading ==> count_downloading(s.skip(i))
            == count_downloading(s.skip(i + 1)),
{
    assert(s.skip(i).len() == s.len() - i);
    assert(s.skip(i)[0] == s[i]);
    assert(s.skip(i).drop_first() =~= s.skip(i + 1));
}

proof fn lemma_find_id_from(s: Seq<TaskView>, id: Seq<char>, k: int, i: int)
    requires
        0 <= k <= i <= s.len(),
        forall|j: int| k <= j < i ==> s[j].id != id,
    ensures
        i < s.len() && s[i].id == id ==> find_id_from(s, id, k) == i,
        i == s.len() ==> find_id_from(s, id, k) == s.len(),
    decreases i - k,
{
    if k < i {
        lemma_find_id_from(s, id, k + 1, i);
    }
}

/// Number of downloading tasks never exceeds the queue length.
pub proof fn lemma_count_downloading_bound(s: Seq<TaskView>)
    ensures
        0 <= count_downloading(s) <= s.len(),
    decreases s.len(),
{
    if s.len() > 0 {
        lemma_count_downloading_bound(s.drop_first());
    }
}

/// The ordered collection of download tasks.
///
/// Its value is the sequence of task values it holds, oldest first.
pub struct TaskQueue {
    pub tasks: Vec<DownloadTask>,
}

impl View for TaskQueue {
    type V = Seq<TaskView>;

    open spec fn view(&self) -> Seq<TaskView> {
        task_views(self.tasks@)
    }
}

/// Whether some task of `s` carries the identifier `id`.
pub open spec fn queue_has_id(s: Seq<TaskView>, id: Seq<char>) -> bool {
    exists|i: int| 0 <= i < s.len() && s[i].id == id
}

impl TaskQueue {
    /// An empty queue.
    pub fn new() -> (r: Self)
        ensures
            r@ == Seq::<TaskView>::empty(),
    {
        let r = TaskQueue { tasks: Vec::new() };
        proof {
            assert(r@ =~= Seq::<TaskView>::empty());
        }
        r
    }

    pub fn len(&self) -> (r: usize)
        ensures
            r == self@.len(),
    {
        self.tasks.len()
    }

    fn contains_id(&self, id: &String) -> (r: bool)
        ensures
            r == queue_has_id(self@, id@),
    {
        let n = self.tasks.len();
        let mut i: usize = 0;
        while i < n
            invariant
                n == self.tasks.len(),
                0 <= i <= n,
                forall|j: int| 0 <= j < i ==> self@[j].id != id@,
            decreases n - i,
        {
            if self.tasks[i].id.eq(id) {
                assert(self@[i as int].id == id@);
                return true;
            }
            i += 1;
        }
        false
    }

    /// Admit a task whose identifier is not yet in the queue; refuse it
    /// (leaving the queue unchanged) when the identifier is already taken.
    pub fn enqueue_task(&mut self, t: DownloadTask) -> (r: bool)
        ensures
            r == !queue_has_id(old(self)@, t@.id),
            r ==> final(self)@ == old(self)@.push(t@),
            !r ==> final(self)@ == old(self)@,
    {
        if self.contains_id(&t.id) {
            false
        } else {
            let ghost pre = self.tasks@;
            let ghost tv = t@;
            self.tasks.push(t);
            proof {
                assert(self@ =~= task_views(pre).push(tv));
            }
            true
        }
    }

    /// Create a queued task from the submitted fields, draw a fresh
    /// identifier for it, admit it and hand back a copy.
    ///
    /// The identifier is drawn at random; in the (never observed) case
    /// that it collides with a task already present, the queue is left
    /// unchanged and an error is reported instead.
    pub fn add_to_queue(
        &mut self,
        pubfile_id: String,
        title: String,
        account: String,
        download_path: String,
        app_id: String,
    ) -> (r: Result<DownloadTask, String>)
        ensures
            match r {
                Ok(t) => {
                    &&& final(self)@ == old(self)@.push(t@)
                    &&& !queue_has_id(old(self)@, t@.id)
                    &&& t@.id.len() == 36
                    &&& t@.pubfile_id == pubfile_id@
                    &&& t@.title == title@
                    &&& t@.status == TaskStatus::Queued
                    &&& t@.progress == Progress::spec_zero()
                    &&& t@.speed is None
                    &&& t@.eta is None
                    &&& t@.error is None
                    &&& t@.account == account@
                    &&& t@.download_path == download_path@
                    &&& t@.app_id == app_id@
                },
                Err(_) => final(self)@ == old(self)@,
            },
    {
        let t = DownloadTask::new(pubfile_id, title, account, download_path, app_id);
        let copy = t.clone();
        if self.enqueue_task(t) {
            Ok(copy)
        } else {
            Err("a task with the freshly drawn identifier already exists".to_owned())
        }
    }

    /// A snapshot copy of the queue, oldest task first.
    pub fn get_queue(&self) -> (r: Vec<DownloadTask>)
        ensures
            task_views(r@) == self@,
    {
        let r = self.tasks.clone();
        proof {
            assert forall|i: int| 0 <= i < r@.len() implies r@[i]@ == self.tasks@[i]@ by {
                assert(cloned::<DownloadTask>(self.tasks@[i], r@[i]));
            }
            assert(task_views(r@) =~= self@);
        }
        r
    }

    /// Drop every task carrying `task_id`; absent identifiers are no error.
    pub fn remove_from_queue(&mut self, task_id: &String)
        ensures
            final(self)@ == without_id(old(self)@, task_id@),
    {
        let ghost full: Seq<TaskView> = self@;
        let n = self.tasks.len();
        let mut kept: Vec<DownloadTask> = Vec::new();
        let mut i: usize = 0;
        proof {
            assert(full.skip(0) =~= full);
            assert(task_views(kept@) =~= Seq::<TaskView>::empty());
            assert(task_views(kept@) + without_id(full.skip(0), task_id@) =~= without_id(
                full,
                task_id@,
            ));
        }
        while i < n
            invariant
                n == self.tasks.len(),
                full == self@,
                0 <= i <= n,
                without_id(full, task_id@) == task_views(kept@) + without_id(
                    full.skip(i as int),
                    task_id@,
                ),
            decreases n - i,
        {
            let ghost pre_kept = kept@;
            let keep_this = !self.tasks[i].id.eq(task_id);
            if keep_this {
                kept.push(self.tasks[i].clone());
            }
            proof {
                lemma_without_id_step(full, task_id@, i as int);
                if keep_this {
                    assert(task_views(kept@) =~= task_views(pre_kept).push(full[i as int]));
                    assert(task_views(pre_kept).push(full[i as int]) =~= task_views(pre_kept)
                        + seq![full[i as int]]);
                    assert(task_views(pre_kept) + seq![full[i as int]] + without_id(
                        full.skip(i + 1),
                        task_id@,
                    ) =~= task_views(pre_kept) + (seq![full[i as int]] + without_id(
                        full.skip(i + 1),
                        task_id@,
                    )));
                }
            }
            i += 1;
        }
        proof {
            assert(full.skip(n as int) =~= Seq::<TaskView>::empty());
            assert(task_views(kept@) + without_id(full.skip(n as int), task_id@) =~= task_views(
                kept@,
            ));
        }
        self.tasks = kept;
    }

    /// Apply a state transition to the first task carrying `task_id`;
    /// when no task carries it (it may have been removed meanwhile) the
    /// queue is left exactly as it was.
    pub fn update_task_status(&mut self, task_id: &String, status: TaskStatus, error: Option<String>)
        ensures
            ({
                let f = find_id_from(old(self)@, task_id@, 0);
                &&& f == old(self)@.len() ==> final(self)@ == old(self)@
                &&& f < old(self)@.len() ==> final(self)@ == old(self)@.update(
                    f,
                    with_status(old(self)@[f], status, opt_str_view(error)),
                )
            }),
            (forall|j: int| 0 <= j < old(self)@.len() ==> old(self)@[j].id != task_id@)
                ==> final(self)@ == old(self)@,
    {
        let ghost full: Seq<TaskView> = old(self)@;
        let n = self.tasks.len();
        let mut i: usize = 0;
        while i < n
            invariant
                n == self.tasks.len(),
                self@ == old(self)@,
                full == old(self)@,
                0 <= i <= n,
                forall|j: int| 0 <= j < i ==> full[j].id != task_id@,
            decreases n - i,
        {
            if self.tasks[i].id.eq(task_id) {
                proof {
                    assert(full[i as int] == self.tasks@[i as int]@);
                    assert(full[i as int].id == task_id@);
                    lemma_find_id_from(full, task_id@, 0, i as int);
                    assert(find_id_from(full, task_id@, 0) == i as int);
                }
                let ghost pre_tasks = self.tasks@;
                let mut t = self.tasks.remove(i);
                proof {
                    assert(t == pre_tasks[i as int]);
                }
                t.status = status;
                t.error = error;
                let ghost tv = t@;
                self.tasks.insert(i, t);
                proof {
                    assert(tv == with_status(full[i as int], status, opt_str_view(error)));
                    assert(self.tasks@ =~= pre_tasks.update(i as int, t));
                    assert(self@ =~= full.update(i as int, tv));
                }
                return ;
            }
            i += 1;
        }
        proof {
            lemma_find_id_from(full, task_id@, 0, n as int);
            assert(self@ =~= full);
        }
    }

    /// Sweep the queue: completed and failed tasks leave, the rest stay
    /// in their original order.
    pub fn clear_completed(&mut self)
        ensures
            final(self)@ == without_finished(old(self)@),
    {
        let ghost full: Seq<TaskView> = self@;
        let n = self.tasks.len();
        let mut kept: Vec<DownloadTask> = Vec::new();
        let mut i: usize = 0;
        proof {
            assert(full.skip(0) =~= full);
            assert(task_views(kept@) =~= Seq::<TaskView>::empty());
            assert(task_views(kept@) + without_finished(full.skip(0)) =~= without_finished(full));
        }
        while i < n
            invariant
                n == self.tasks.len(),
                full == self@,
                0 <= i <= n,
                without_finished(full) == task_views(kept@) + without_finished(full.skip(i as int)),
            decreases n - i,
        {
            let ghost pre_kept = kept@;
            let st = self.tasks[i].status;
            let keep_this = !(st == TaskStatus::Completed || st == TaskStatus::Failed);
            if keep_this {
                kept.push(self.tasks[i].clone());
            }
            proof {
                lemma_without_finished_step(full, i as int);
                if keep_this {
                    assert(task_views(kept@) =~= task_views(pre_kept).push(full[i as int]));
                    assert(task_views(pre_kept).push(full[i as int]) =~= task_views(pre_kept)
                        + seq![full[i as int]]);
                    assert(task_views(pre_kept) + seq![full[i as int]] + without_finished(
                        full.skip(i + 1),
                    ) =~= task_views(pre_kept) + (seq![full[i as int]] + without_finished(
                        full.skip(i + 1),
                    )));
                }
            }
            i += 1;
        }
        proof {
            assert(full.skip(n as int) =~= Seq::<TaskView>::empty());
            assert(task_views(kept@) + without_finished(full.skip(n as int)) =~= task_views(kept@));
        }
        self.tasks = kept;
    }

    /// How many tasks are being downloaded right now.
    pub fn running_count(&self) -> (r: usize)
        ensures
            r == count_downloading(self@),
    {
        let ghost full: Seq<TaskView> = self@;
        proof {
            lemma_count_downloading_bound(full);
            assert(full.skip(0) =~= full);
        }
        let n = self.tasks.len();
        let mut cnt: usize = 0;
        let mut i: usize = 0;
        while i < n
            invariant
                n == self.tasks.len(),
                full == self@,
                0 <= i <= n,
                count_downloading(full) == cnt + count_downloading(full.skip(i as int)),
                cnt <= i,
            decreases n - i,
        {
            proof {
                lemma_count_downloading_step(full, i as int);
                lemma_count_downloading_bound(full.skip(i as int));
            }
            let st = self.tasks[i].status;
            if st == TaskStatus::Downloading {
                cnt += 1;
            }
            i += 1;
        }
        proof {
            assert(full.skip(n as int) =~= Seq::<TaskView>::empty());
        }
        cnt
    }

    /// Whether another task may be handed to the supervisor without
    /// exceeding the configured bound on simultaneous downloads.
    pub fn has_free_slot(&self, max_concurrent: u32) -> (r: bool)
        ensures
            r == (count_downloading(self@) < max_concurrent as int),
    {
        let c = self.running_count();
        (c as u64) < (max_concurrent as u64)
    }
}

/// Admitting a task under a fresh identifier yields exactly one task
/// with it: the new task stands last, no other task carries its
/// identifier, and removing that identifier restores the old queue.
pub proof fn lemma_enqueue_yields_one(s: Seq<TaskView>, t: TaskView)
    requires
        forall|i: int| 0 <= i < s.len() ==> s[i].id != t.id,
    ensures
        s.push(t).len() == s.len() + 1,
        s.push(t)[s.len() as int] == t,
        forall|i: int| 0 <= i < s.len() ==> s.push(t)[i].id != t.id,
        without_id(s.push(t), t.id) == s,
{
    lemma_without_id_push(s, t.id, t);
    lemma_without_id_absent(s, t.id);
}

proof fn lemma_without_id_push(s: Seq<TaskView>, id: Seq<char>, t: TaskView)
    ensures
        t.id == id ==> without_id(s.push(t), id) == without_id(s, id),
        t.id != id ==> without_id(s.push(t), id) == without_id(s, id) + seq![t],
    decreases s.len(),
{
    if s.len() == 0 {
        assert(s.push(t).drop_first() =~= Seq::<TaskView>::empty());
        assert(without_id(s.push(t).drop_first(), id) =~= Seq::<TaskView>::empty());
        if t.id != id {
            assert(without_id(s.push(t), id) =~= seq![t]);
            assert(without_id(s, id) + seq![t] =~= seq![t]);
        }
    } else {
        assert(s.push(t).drop_first() =~= s.drop_first().push(t));
        lemma_without_id_push(s.drop_first(), id, t);
        if t.id != id && s[0].id != id {
            assert(seq![s[0]] + (without_id(s.drop_first(), id) + seq![t]) =~= (seq![s[0]]
                + without_id(s.drop_first(), id)) + seq![t]);
        }
    }
}

/// Removal is idempotent: removing an identifier from a queue that no
/// longer holds it changes nothing.
pub proof fn lemma_remove_idempotent(s: Seq<TaskView>, id: Seq<char>)
    ensures
        without_id(without_id(s, id), id) == without_id(s, id),
    decreases s.len(),
{
    lemma_without_id_no_match(s, id);
    lemma_without_id_absent(without_id(s, id), id);
}

/// Removing an identifier that no task carries leaves the queue unchanged.
pub proof fn lemma_without_id_absent(s: Seq<TaskView>, id: Seq<char>)
    requires
        forall|i: int| 0 <= i < s.len() ==> s[i].id != id,
    ensures
        without_id(s, id) == s,
    decreases s.len(),
{
    if s.len() == 0 {
        assert(without_id(s, id) =~= s);
    } else {
        assert(forall|i: int| 0 <= i < s.drop_first().len() ==> s.drop_first()[i].id != id);
        lemma_without_id_absent(s.drop_first(), id);
        assert(seq![s[0]] + s.drop_first() =~= s);
    }
}

/// No task of the removal's result carries the removed identifier.
pub proof fn lemma_without_id_no_match(s: Seq<TaskView>, id: Seq<char>)
    ensures
        forall|i: int| 0 <= i < without_id(s, id).len() ==> without_id(s, id)[i].id != id,
    decreases s.len(),
{
    if s.len() > 0 {
        lemma_without_id_no_match(s.drop_first(), id);
    }
}

/// The sweep keeps no finished task and loses no unfinished one: every
/// kept task is unfinished, and every unfinished task of the original
/// queue still occurs in the result.
pub proof fn lemma_clear_finished_exact(s: Seq<TaskView>)
    ensures
        forall|i: int| 0 <= i < without_finished(s).len() ==> !is_finished(
            #[trigger] without_finished(s)[i].status,
        ),
        forall|i: int|
            0 <= i < s.len() && !is_finished(s[i].status) ==> without_finished(s).contains(s[i]),
        without_finished(s).len() <= s.len(),
    decreases s.len(),
{
    if s.len() > 0 {
        lemma_clear_finished_exact(s.drop_first());
        assert forall|i: int|
            0 <= i < s.len() && !is_finished(s[i].status) implies without_finished(s).contains(
            s[i],
        ) by {
            if i == 0 {
                assert(without_finished(s)[0] == s[0]);
            } else {
                assert(s.drop_first()[i - 1] == s[i]);
                assert(without_finished(s.drop_first()).contains(s[i]));
                let j = choose|j: int|
                    0 <= j < without_finished(s.drop_first()).len() && without_finished(
                        s.drop_first(),
                    )[j] == s[i];
                if is_finished(s[0].status) {
                    assert(without_finished(s)[j] == s[i]);
                } else {
                    assert(without_finished(s)[j + 1] == s[i]);
                }
            }
        }
    }
}

} // verus!
