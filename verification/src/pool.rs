//! Jobs: what is running, and what has come of it.
use vstd::prelude::*;

use crate::path::{is_text_before, lemma_text_order, text_before};
use crate::text::{concat3, decimal, decimal_of, same_text};

verus! {

/// What came of a task.
pub struct ExecutionResult<T> {
    pub name: String,
    pub result: T,
}

/// What came of the tasks of a job.
pub struct ExecutionResults<T, E> {
    pub successful: Vec<ExecutionResult<T>>,
    pub failed: Vec<ExecutionResult<E>>,
}

/// The results, by the names of their tasks.
pub open spec fn named_results<T>(results: Seq<ExecutionResult<T>>) -> Seq<(Seq<char>, T)> {
    results.map_values(|r: ExecutionResult<T>| (r.name@, r.result))
}

/// The tasks that succeeded, in order.
pub open spec fn successes<T, E>(handles: Seq<(String, Result<T, E>)>) -> Seq<(Seq<char>, T)>
    decreases handles.len(),
{
    if handles.len() == 0 {
        Seq::empty()
    } else {
        match handles.last().1 {
            Ok(result) => successes(handles.drop_last()).push((handles.last().0@, result)),
            Err(_) => successes(handles.drop_last()),
        }
    }
}

/// The tasks that failed, in order.
pub open spec fn failures<T, E>(handles: Seq<(String, Result<T, E>)>) -> Seq<(Seq<char>, E)>
    decreases handles.len(),
{
    if handles.len() == 0 {
        Seq::empty()
    } else {
        match handles.last().1 {
            Ok(_) => failures(handles.drop_last()),
            Err(error) => failures(handles.drop_last()).push((handles.last().0@, error)),
        }
    }
}

/// No task is lost: each has either succeeded or failed.
pub proof fn law_every_task_counts<T, E>(handles: Seq<(String, Result<T, E>)>)
    ensures
        successes(handles).len() + failures(handles).len() == handles.len(),
    decreases handles.len(),
{
    if handles.len() > 0 {
        law_every_task_counts(handles.drop_last());
    }
}

/// Some tasks have failed.
pub struct TasksFailed {
    pub count: usize,
}

/// Accepts results only where no task has failed.
pub fn check_failed(failed: usize) -> (r: Result<(), TasksFailed>)
    ensures
        match r {
            Ok(()) => failed == 0,
            Err(error) => failed > 0 && error.count == failed,
        },
{
    if failed == 0 {
        Ok(())
    } else {
        Err(TasksFailed { count: failed })
    }
}

/// Parts the tasks of a job into those that succeeded and those that failed, each in order.
pub fn collect_results<T, E>(handles: Vec<(String, Result<T, E>)>) -> (r: ExecutionResults<T, E>)
    ensures
        named_results(r.successful@) == successes(handles@),
        named_results(r.failed@) == failures(handles@),
{
    let ghost all = handles@;
    let mut front: Vec<(String, Result<T, E>)> = handles;
    let mut reversed: Vec<(String, Result<T, E>)> = Vec::new();
    assert(front@ + reversed@.reverse() =~= all);
    while front.len() > 0
        invariant
            front@ + reversed@.reverse() == all,
        decreases front.len(),
    {
        let ghost f = front@;
        let ghost b = reversed@;
        match front.pop() {
            Some(handle) => {
                reversed.push(handle);
                assert(reversed@.reverse() =~= seq![f.last()] + b.reverse());
                assert(front@ + reversed@.reverse() =~= f + b.reverse());
            },
            None => {},
        }
    }
    assert(reversed@.reverse() =~= all);
    let mut successful: Vec<ExecutionResult<T>> = Vec::new();
    let mut failed: Vec<ExecutionResult<E>> = Vec::new();
    let ghost done = 0int;
    assert(all.take(0) =~= Seq::empty());
    assert(named_results(successful@) =~= Seq::empty());
    assert(named_results(failed@) =~= Seq::empty());
    while reversed.len() > 0
        invariant
            0 <= done <= all.len(),
            reversed@.len() == all.len() - done,
            reversed@.reverse() == all.skip(done),
            named_results(successful@) == successes(all.take(done)),
            named_results(failed@) == failures(all.take(done)),
        decreases reversed.len(),
    {
        let ghost b = reversed@;
        let ghost good = successful@;
        let ghost bad = failed@;
        match reversed.pop() {
            Some(handle) => {
                assert(handle == b.reverse()[0]);
                assert(handle == all[done]);
                assert(reversed@.reverse() =~= all.skip(done).drop_first());
                assert(all.skip(done).drop_first() =~= all.skip(done + 1));
                assert(all.take(done + 1).drop_last() =~= all.take(done));
                let (name, result) = handle;
                match result {
                    Ok(result) => {
                        successful.push(ExecutionResult { name, result });
                        assert(named_results(successful@) =~= named_results(good).push(
                            (name@, result),
                        ));
                    },
                    Err(result) => {
                        failed.push(ExecutionResult { name, result });
                        assert(named_results(failed@) =~= named_results(bad).push((name@, result)));
                    },
                }
                proof {
                    done = done + 1;
                }
            },
            None => {},
        }
    }
    assert(all.take(all.len() as int) =~= all);
    ExecutionResults { successful, failed }
}

/// The template of a progress bar for a job of the given number of tasks, in which the number of
/// finished tasks is right-aligned.
pub fn progress_bar_style(task_count: usize) -> (r: String)
    requires
        decimal(task_count as int).len() <= 6,
    ensures
        r@ == "[{elapsed_precise}] {prefix} {pos:>"@ + decimal(
            6 - decimal(task_count as int).len(),
        ) + "}/{len} {bar:40.cyan/blue}: {msg}"@,
{
    let digits: usize = decimal_of(task_count as u64).as_str().unicode_len();
    let width: String = decimal_of((6 - digits) as u64);
    concat3(
        "[{elapsed_precise}] {prefix} {pos:>",
        width.as_str(),
        "}/{len} {bar:40.cyan/blue}: {msg}",
    )
}

/// A running task: when it started, its name, and a number that no other task has.
pub struct TaskMonitorId {
    pub started: u64,
    pub name: String,
    pub number: usize,
}

/// A running task, as a value.
pub struct TaskView {
    pub started: u64,
    pub name: Seq<char>,
    pub number: usize,
}

impl View for TaskMonitorId {
    type V = TaskView;

    open spec fn view(&self) -> TaskView {
        TaskView { started: self.started, name: self.name@, number: self.number }
    }
}

impl DeepView for TaskMonitorId {
    type V = TaskView;

    open spec fn deep_view(&self) -> TaskView {
        self@
    }
}

/// The order of tasks: by when they started, then by name, then by number.
pub open spec fn task_before(a: TaskView, b: TaskView) -> bool {
    a.started < b.started || (a.started == b.started && (text_before(a.name, b.name) || (a.name
        == b.name && a.number < b.number)))
}

/// The first of the tasks in their order.
pub open spec fn oldest(tasks: Seq<TaskView>) -> Option<TaskView>
    decreases tasks.len(),
{
    if tasks.len() == 0 {
        None
    } else {
        match oldest(tasks.drop_last()) {
            None => Some(tasks.last()),
            Some(first) => if task_before(tasks.last(), first) {
                Some(tasks.last())
            } else {
                Some(first)
            },
        }
    }
}

/// The position of a task, or the number of tasks where it is not among them.
pub open spec fn task_position(tasks: Seq<TaskView>, task: TaskView) -> nat
    decreases tasks.len(),
{
    if tasks.len() == 0 || tasks[0] == task {
        0
    } else {
        1 + task_position(tasks.drop_first(), task)
    }
}

/// What is shown of the running tasks: the name of the oldest.
pub open spec fn task_message(tasks: Seq<TaskView>) -> Seq<char> {
    match oldest(tasks) {
        Some(task) => task.name,
        None => ""@,
    }
}

/// What a monitor knows.
#[verifier::ext_equal]
pub struct MonitorView {
    pub counter: usize,
    pub tasks: Seq<TaskView>,
    pub finished: nat,
}

/// The tasks that are running, and how many have finished.
pub struct TaskMonitor {
    counter: usize,
    tasks: Vec<TaskMonitorId>,
    finished: u64,
}

impl View for TaskMonitor {
    type V = MonitorView;

    closed spec fn view(&self) -> MonitorView {
        MonitorView {
            counter: self.counter,
            tasks: self.tasks.deep_view(),
            finished: self.finished as nat,
        }
    }
}

impl TaskMonitor {
    /// No tasks.
    pub fn new() -> (r: TaskMonitor)
        ensures
            r@ == (MonitorView { counter: 0, tasks: Seq::empty(), finished: 0 }),
    {
        let tasks: Vec<TaskMonitorId> = Vec::new();
        assert(tasks.deep_view() =~= Seq::empty());
        TaskMonitor { counter: 0, tasks, finished: 0 }
    }

    /// A task has started.
    pub fn started(&mut self, now: u64, task_name: &str) -> (r: TaskMonitorId)
        requires
            old(self)@.counter < usize::MAX,
        ensures
            r@ == (TaskView { started: now, name: task_name@, number: old(self)@.counter }),
            final(self)@ == (MonitorView {
                counter: (old(self)@.counter + 1) as usize,
                tasks: old(self)@.tasks.push(r@),
                finished: old(self)@.finished,
            }),
    {
        let number: usize = self.counter;
        let ghost before = self.tasks.deep_view();
        self.counter = number + 1;
        let task: TaskMonitorId = TaskMonitorId { started: now, name: task_name.to_owned(), number };
        let ghost added = task@;
        self.tasks.push(task);
        assert(self.tasks.deep_view() =~= before.push(added));
        TaskMonitorId { started: now, name: task_name.to_owned(), number }
    }

    /// A task has finished; it must be running.
    pub fn finished(&mut self, task: &TaskMonitorId)
        requires
            old(self)@.tasks.contains(task@),
            old(self)@.finished < u64::MAX,
        ensures
            final(self)@ == (MonitorView {
                counter: old(self)@.counter,
                tasks: old(self)@.tasks.remove(task_position(old(self)@.tasks, task@) as int),
                finished: old(self)@.finished + 1,
            }),
    {
        let ghost all = self.tasks.deep_view();
        let mut i: usize = 0;
        assert(all.skip(0) =~= all);
        proof {
            let k = choose|k: int| 0 <= k < all.len() && all[k] == task@;
            lemma_task_position(all, task@, k);
        }
        while i < self.tasks.len() && !same_task(&self.tasks[i], task)
            invariant
                i <= self.tasks.len(),
                all == self.tasks.deep_view(),
                task_position(all, task@) == i + task_position(all.skip(i as int), task@),
                task_position(all, task@) < all.len(),
            decreases self.tasks.len() - i,
        {
            assert(all.skip(i as int)[0] == self.tasks@[i as int]@);
            assert(all.skip(i as int).drop_first() =~= all.skip(i + 1));
            i += 1;
        }
        assert(i < self.tasks.len() ==> all.skip(i as int)[0] == self.tasks@[i as int]@);
        assert(task_position(all, task@) == i);
        let _removed: TaskMonitorId = self.tasks.remove(i);
        assert(self.tasks.deep_view() =~= all.remove(i as int));
        self.finished = self.finished + 1;
    }

    /// What is shown of the running tasks.
    pub fn update_progress_bar(&self) -> (r: String)
        ensures
            r@ == task_message(self@.tasks),
    {
        let ghost all = self.tasks.deep_view();
        if self.tasks.len() == 0 {
            return "".to_owned();
        }
        let mut best: usize = 0;
        let mut i: usize = 1;
        assert(oldest(all.take(1).drop_last()) is None);
        assert(all.take(1).last() == self.tasks@[0]@);
        while i < self.tasks.len()
            invariant
                best < i <= self.tasks.len(),
                all == self.tasks.deep_view(),
                oldest(all.take(i as int)) == Some(self.tasks@[best as int]@),
            decreases self.tasks.len() - i,
        {
            assert(all.take(i + 1).drop_last() =~= all.take(i as int));
            assert(all.take(i + 1).last() == self.tasks@[i as int]@);
            if is_task_before(&self.tasks[i], &self.tasks[best]) {
                best = i;
            }
            i += 1;
        }
        assert(all.take(all.len() as int) =~= all);
        self.tasks[best].name.clone()
    }

    /// How many tasks have finished.
    pub fn finished_count(&self) -> (r: u64)
        ensures
            r == self@.finished,
    {
        self.finished
    }
}

proof fn lemma_task_position(tasks: Seq<TaskView>, task: TaskView, k: int)
    requires
        0 <= k < tasks.len(),
        tasks[k] == task,
    ensures
        task_position(tasks, task) <= k,
    decreases k,
{
    if tasks[0] != task {
        assert(tasks.drop_first()[k - 1] == task);
        lemma_task_position(tasks.drop_first(), task, k - 1);
    }
}

/// Every running task has a number that was given out already.
pub open spec fn numbered(monitor: MonitorView) -> bool {
    forall|i: int| 0 <= i < monitor.tasks.len() ==> #[trigger] monitor.tasks[i].number
        < monitor.counter
}

/// Numbers stay given out, whatever starts and finishes.
pub proof fn law_numbers_stay_given_out(monitor: MonitorView, task: TaskView, i: int)
    requires
        numbered(monitor),
        task.number == monitor.counter < usize::MAX,
    ensures
        numbered(
            MonitorView {
                counter: (monitor.counter + 1) as usize,
                tasks: monitor.tasks.push(task),
                finished: monitor.finished,
            },
        ),
        0 <= i < monitor.tasks.len() ==> numbered(
            MonitorView {
                counter: monitor.counter,
                tasks: monitor.tasks.remove(i),
                finished: monitor.finished + 1,
            },
        ),
{
}

/// A task that starts and finishes leaves the running tasks as they were.
pub proof fn law_finish_undoes_start(monitor: MonitorView, started: u64, name: Seq<char>)
    requires
        numbered(monitor),
    ensures
        ({
            let task = TaskView { started, name, number: monitor.counter };
            let running = monitor.tasks.push(task);
            running.remove(task_position(running, task) as int) == monitor.tasks
        }),
{
    let task = TaskView { started, name, number: monitor.counter };
    let running = monitor.tasks.push(task);
    lemma_new_position(monitor.tasks, task);
    assert(running.remove(monitor.tasks.len() as int) =~= monitor.tasks);
}

proof fn lemma_new_position(tasks: Seq<TaskView>, task: TaskView)
    requires
        forall|i: int| 0 <= i < tasks.len() ==> #[trigger] tasks[i].number < task.number,
    ensures
        task_position(tasks.push(task), task) == tasks.len(),
    decreases tasks.len(),
{
    if tasks.len() > 0 {
        assert(tasks[0].number < task.number);
        let rest = tasks.drop_first();
        assert forall|i: int| 0 <= i < rest.len() implies #[trigger] rest[i].number
            < task.number by {
            assert(tasks[i + 1].number < task.number);
        }
        lemma_new_position(rest, task);
        assert(tasks.push(task).drop_first() =~= rest.push(task));
    }
}

/// No running task comes before the one whose name is shown.
pub proof fn law_oldest_is_first(tasks: Seq<TaskView>)
    ensures
        match oldest(tasks) {
            Some(first) => tasks.contains(first) && forall|i: int|
                0 <= i < tasks.len() ==> !task_before(#[trigger] tasks[i], first),
            None => tasks.len() == 0,
        },
    decreases tasks.len(),
{
    if tasks.len() > 0 {
        let front = tasks.drop_last();
        law_oldest_is_first(front);
        let first = oldest(tasks)->0;
        match oldest(front) {
            None => {
                assert(tasks[tasks.len() - 1] == first);
                lemma_task_order(first, first, first);
            },
            Some(before) => {
                let k = choose|k: int| 0 <= k < front.len() && front[k] == before;
                assert(tasks[k] == before);
                assert(tasks[tasks.len() - 1] == tasks.last());
                assert forall|i: int| 0 <= i < tasks.len() implies !task_before(
                    #[trigger] tasks[i],
                    first,
                ) by {
                    lemma_task_order(tasks.last(), tasks.last(), tasks.last());
                    if i < front.len() {
                        assert(front[i] == tasks[i]);
                        lemma_task_order(tasks[i], first, before);
                    }
                }
            },
        }
    }
}

/// Tasks are ordered strictly.
proof fn lemma_task_order(a: TaskView, b: TaskView, c: TaskView)
    ensures
        !task_before(a, a),
        task_before(a, b) && task_before(b, c) ==> task_before(a, c),
{
    crate::path::lemma_text_order(a.name, b.name, c.name);
}

fn same_task(a: &TaskMonitorId, b: &TaskMonitorId) -> (r: bool)
    ensures
        r == (a@ == b@),
{
    a.started == b.started && a.number == b.number && same_text(a.name.as_str(), b.name.as_str())
}

fn is_task_before(a: &TaskMonitorId, b: &TaskMonitorId) -> (r: bool)
    ensures
        r == task_before(a@, b@),
{
    a.started < b.started || (a.started == b.started && (is_text_before(
        a.name.as_str(),
        b.name.as_str(),
    ) || (same_text(a.name.as_str(), b.name.as_str()) && a.number < b.number)))
}

/// Each task is told by its own outcome, with its name and in order, whatever became of the others.
pub proof fn law_tasks_parted_one_by_one<T, E>(
    handles: Seq<(String, Result<T, E>)>,
    handle: (String, Result<T, E>),
)
    ensures
        handle.1 matches Ok(result) ==> successes(handles.push(handle)) == successes(handles).push(
            (handle.0@, result),
        ) && failures(handles.push(handle)) == failures(handles),
        handle.1 matches Err(error) ==> failures(handles.push(handle)) == failures(handles).push(
            (handle.0@, error),
        ) && successes(handles.push(handle)) == successes(handles),
        successes(Seq::<(String, Result<T, E>)>::empty()).len() == 0,
        failures(Seq::<(String, Result<T, E>)>::empty()).len() == 0,
{
    assert(handles.push(handle).drop_last() =~= handles);
}

/// The task whose name is shown started no later than any other that runs; where none runs, nothing
/// is shown.
pub proof fn law_shown_task_started_first(tasks: Seq<TaskView>, i: int)
    ensures
        0 <= i < tasks.len() ==> exists|k: int|
            0 <= k < tasks.len() && (#[trigger] tasks[k]).name == task_message(tasks)
                && tasks[k].started <= tasks[i].started,
        tasks.len() == 0 ==> task_message(tasks) == ""@,
{
    law_oldest_is_first(tasks);
    if 0 <= i < tasks.len() {
        let first = oldest(tasks)->0;
        let k = choose|k: int| 0 <= k < tasks.len() && tasks[k] == first;
        assert(tasks[k].name == task_message(tasks));
        assert(!task_before(tasks[i], first));
    }
}

/// Of tasks that started at the same time, the one whose name comes first counts, and of those of
/// one name the one with the lower number.
pub proof fn law_task_order(a: TaskView, b: TaskView)
    ensures
        a.started < b.started ==> task_before(a, b),
        a.started > b.started ==> !task_before(a, b),
        a.started == b.started && text_before(a.name, b.name) ==> task_before(a, b),
        a.started == b.started && a.name == b.name ==> (task_before(a, b) <==> a.number < b.number),
        a.started == b.started && text_before(b.name, a.name) ==> !task_before(a, b),
{
    lemma_text_order(a.name, b.name, a.name);
}

/// The position of a task that runs is one at which it stands, and the first such.
pub proof fn law_task_position(tasks: Seq<TaskView>, task: TaskView)
    ensures
        task_position(tasks, task) <= tasks.len(),
        tasks.contains(task) ==> task_position(tasks, task) < tasks.len() && tasks[task_position(
            tasks,
            task,
        ) as int] == task,
        !tasks.contains(task) ==> task_position(tasks, task) == tasks.len(),
    decreases tasks.len(),
{
    if tasks.len() > 0 && tasks[0] != task {
        let rest = tasks.drop_first();
        law_task_position(rest, task);
        if tasks.contains(task) {
            let i = choose|i: int| 0 <= i < tasks.len() && tasks[i] == task;
            assert(rest[i - 1] == task);
        }
        if rest.contains(task) {
            let i = choose|i: int| 0 <= i < rest.len() && rest[i] == task;
            assert(tasks[i + 1] == task);
        }
    } else if tasks.len() > 0 {
        assert(tasks.contains(tasks[0]));
    }
}

/// Every task of a job is among the results, by its name and with what came of it, as a success or
/// as a failure.
pub proof fn law_every_task_has_result<T, E>(
    handles: Vec<(String, Result<T, E>)>,
    results: ExecutionResults<T, E>,
    i: int,
)
    requires
        call_ensures(collect_results::<T, E>, (handles,), results),
        0 <= i < handles@.len(),
    ensures
        results.successful@.len() + results.failed@.len() == handles@.len(),
        handles@[i].1 matches Ok(result) ==> named_results(results.successful@).contains(
            (handles@[i].0@, result),
        ),
        handles@[i].1 matches Err(error) ==> named_results(results.failed@).contains(
            (handles@[i].0@, error),
        ),
{
    law_every_task_counts(handles@);
    lemma_task_among(handles@, i);
    assert(named_results(results.successful@).len() == results.successful@.len());
    assert(named_results(results.failed@).len() == results.failed@.len());
}

proof fn lemma_task_among<T, E>(handles: Seq<(String, Result<T, E>)>, i: int)
    requires
        0 <= i < handles.len(),
    ensures
        handles[i].1 matches Ok(result) ==> successes(handles).contains((handles[i].0@, result)),
        handles[i].1 matches Err(error) ==> failures(handles).contains((handles[i].0@, error)),
    decreases handles.len(),
{
    let front = handles.drop_last();
    if i < front.len() {
        lemma_task_among(front, i);
        assert(front[i] == handles[i]);
        match handles[i].1 {
            Ok(result) => {
                let x = (handles[i].0@, result);
                let k = choose|k: int| 0 <= k < successes(front).len() && successes(front)[k] == x;
                assert(successes(handles)[k] == x);
            },
            Err(error) => {
                let x = (handles[i].0@, error);
                let k = choose|k: int| 0 <= k < failures(front).len() && failures(front)[k] == x;
                assert(failures(handles)[k] == x);
            },
        }
    } else {
        match handles[i].1 {
            Ok(result) => {
                let all = successes(handles);
                assert(all[all.len() - 1] == (handles[i].0@, result));
            },
            Err(error) => {
                let all = failures(handles);
                assert(all[all.len() - 1] == (handles[i].0@, error));
            },
        }
    }
}

} // verus!
