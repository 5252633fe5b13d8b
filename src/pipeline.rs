//! The bounded task pipeline: work items run at most `MAX_WORKERS` at a
//! time, the rest wait in a first-in first-out backlog, and the messages of
//! finished items are gathered into one log.

use vstd::prelude::*;
use vstd::string::*;

verus! {

#[verifier::external_type_specification]
#[verifier::external_body]
#[verifier::reject_recursive_types(T)]
pub struct ExReceiver<T>(std::sync::mpsc::Receiver<T>);

#[verifier::external_type_specification]
#[verifier::external_body]
#[verifier::reject_recursive_types(T)]
pub struct ExSender<T>(std::sync::mpsc::Sender<T>);

/// The most work items that run at once.
pub const MAX_WORKERS: usize = 16;

/// One result line of a work item.
#[derive(Debug, PartialEq, Eq)]
pub enum Message {
    Success(String),
    Error(String),
}

/// The mathematical form of a [`Message`].
pub enum MessageView {
    Success(Seq<char>),
    Error(Seq<char>),
}

impl View for Message {
    type V = MessageView;

    open spec fn view(&self) -> MessageView {
        match self {
            Message::Success(t) => MessageView::Success(t@),
            Message::Error(t) => MessageView::Error(t@),
        }
    }
}

/// The views of a sequence of messages.
pub open spec fn messages_view(ms: Seq<Message>) -> Seq<MessageView> {
    ms.map_values(|m: Message| m@)
}

/// What a look at a task's channel found.
pub enum Received {
    /// The task sent its messages.
    Batch(Vec<Message>),
    /// Nothing has come yet.
    Empty,
    /// The task's sender is gone without a batch: the work ended abnormally.
    Disconnected,
}

/// The text of the message that stands for a task that ended abnormally.
pub open spec fn abnormal_end_text() -> Seq<char> {
    seq!['T', 'h', 'r', 'e', 'a', 'd', ' ', 'p', 'a', 'n', 'i', 'c', 'k', 'e', 'd', '.']
}

/// The messages that a look at a channel yields.
pub open spec fn batch_view(r: Received) -> Seq<MessageView> {
    match r {
        Received::Batch(m) => messages_view(m@),
        Received::Empty => seq![],
        Received::Disconnected => seq![MessageView::Error(abnormal_end_text())],
    }
}

/// Whether `ms` is what some look that found something yields.
pub open spec fn is_found_batch(ms: Seq<MessageView>) -> bool {
    exists|x: Received| !(x is Empty) && #[trigger] batch_view(x) == ms
}

/// Relies on `std::sync::mpsc::channel`: a new channel for one task's messages.
#[verifier::external_body]
fn channel() -> (r: (std::sync::mpsc::Sender<Vec<Message>>, std::sync::mpsc::Receiver<Vec<Message>>)) {
    std::sync::mpsc::channel()
}

/// Relies on `std::sync::mpsc::Receiver::try_recv`, which never blocks. What
/// it finds depends on the task's thread.
#[verifier::external_body]
fn try_receive(receiver: &std::sync::mpsc::Receiver<Vec<Message>>) -> (r: Received) {
    match receiver.try_recv() {
        Ok(messages) => Received::Batch(messages),
        Err(std::sync::mpsc::TryRecvError::Empty) => Received::Empty,
        Err(std::sync::mpsc::TryRecvError::Disconnected) => Received::Disconnected,
    }
}

/// A running work item: its path, and the channel on which its messages come.
pub struct Task {
    pub path: String,
    pub receiver: std::sync::mpsc::Receiver<Vec<Message>>,
    pub done: bool,
}

impl Task {
    pub fn new(path: String, receiver: std::sync::mpsc::Receiver<Vec<Message>>) -> (r: Self)
        ensures
            r.path == path,
            r.receiver == receiver,
            !r.done,
    {
        Task { path, receiver, done: false }
    }

    /// Takes what a look at the channel found. A batch or a disconnection
    /// finishes the task and hands back its messages; an empty channel
    /// changes nothing.
    pub fn settle(&mut self, received: Received) -> (r: Option<Vec<Message>>)
        ensures
            final(self).path == old(self).path,
            final(self).receiver == old(self).receiver,
            received is Empty ==> r is None && *final(self) == *old(self),
            !(received is Empty) ==> final(self).done && r is Some
                && messages_view(r->Some_0@) == batch_view(received),
    {
        match received {
            Received::Batch(messages) => {
                self.done = true;
                Some(messages)
            },
            Received::Empty => None,
            Received::Disconnected => {
                self.done = true;
                let text = String::from_str("Thread panicked.");
                proof {
                    reveal_strlit("Thread panicked.");
                    assert(text@ =~= abnormal_end_text());
                }
                let r = vec![Message::Error(text)];
                proof {
                    assert(messages_view(r@) =~= seq![MessageView::Error(abnormal_end_text())]);
                }
                Some(r)
            },
        }
    }

    /// Looks at the channel without waiting. When the messages have come, or
    /// the work ended abnormally, the task is done and its messages are
    /// handed back.
    pub fn poll(&mut self) -> (r: Option<Vec<Message>>)
        ensures
            final(self).path == old(self).path,
            final(self).receiver == old(self).receiver,
            r is None ==> *final(self) == *old(self),
            r is Some ==> final(self).done,
            r is Some ==> is_found_batch(messages_view(r->Some_0@)),
    {
        let received = try_receive(&self.receiver);
        let ghost x = received;
        let r = self.settle(received);
        proof {
            if r is Some {
                assert(batch_view(x) == messages_view(r->Some_0@));
            }
        }
        r
    }
}

/// The modifier keys that were held when a path was dropped.
#[derive(Clone, Copy)]
pub struct Modifiers {
    /// Only the command (or control) key was held.
    pub command_only: bool,
    /// Only the shift key was held.
    pub shift_only: bool,
}

/// A work item waiting for a free slot.
pub struct BacklogTask {
    pub path: String,
    pub modifiers: Modifiers,
}

/// A work item that has just been admitted: the caller runs it and sends
/// its messages on `sender`.
pub struct Dispatch {
    pub path: String,
    pub modifiers: Modifiers,
    pub sender: std::sync::mpsc::Sender<Vec<Message>>,
}

/// The pipeline: the running tasks, the backlog, and the message log.
pub struct MainState {
    pub messages: Vec<Message>,
    pub tasks: Vec<Task>,
    pub backlog: Vec<BacklogTask>,
}

/// The running count and backlog after one enqueue.
pub open spec fn enqueue_model(running: nat, backlog: Seq<BacklogTask>, item: BacklogTask) -> (nat, Seq<BacklogTask>) {
    if running < MAX_WORKERS {
        (running + 1, backlog)
    } else {
        (running, backlog.push(item))
    }
}

/// The running count and backlog after enqueuing `items` in order.
pub open spec fn burst_model(running: nat, backlog: Seq<BacklogTask>, items: Seq<BacklogTask>) -> (nat, Seq<BacklogTask>)
    decreases items.len(),
{
    if items.len() == 0 {
        (running, backlog)
    } else {
        let (r, b) = burst_model(running, backlog, items.drop_last());
        enqueue_model(r, b, items.last())
    }
}

/// How many backlog items are admitted when `running` tasks still run.
pub open spec fn admitted_count(running: nat, backlog_len: nat) -> nat {
    let free = if running >= MAX_WORKERS { 0 } else { (MAX_WORKERS - running) as nat };
    if free < backlog_len { free } else { backlog_len }
}

/// Whether the task was started for the backlog item: its path, not done.
pub open spec fn started_for(t: Task, path: String) -> bool {
    t.path == path && !t.done
}

/// Whether a look at the channel leaves the task running.
pub open spec fn keeps_running(t: Task, r: Received) -> bool {
    !t.done && r is Empty
}

/// The tasks among the first `n` that keep running.
pub open spec fn retained(ts: Seq<Task>, rs: Seq<Received>, n: int) -> Seq<Task>
    decreases n,
{
    if n <= 0 {
        seq![]
    } else if keeps_running(ts[n - 1], rs[n - 1]) {
        retained(ts, rs, n - 1).push(ts[n - 1])
    } else {
        retained(ts, rs, n - 1)
    }
}

/// The messages of the first `n` looks, in task order.
pub open spec fn gathered(ts: Seq<Task>, rs: Seq<Received>, n: int) -> Seq<MessageView>
    decreases n,
{
    if n <= 0 {
        seq![]
    } else if keeps_running(ts[n - 1], rs[n - 1]) || rs[n - 1] is Empty {
        gathered(ts, rs, n - 1)
    } else {
        gathered(ts, rs, n - 1) + batch_view(rs[n - 1])
    }
}

/// Whether `after` follows from `before` by one tick in which the looks at
/// the running tasks' channels found `rs`, and `admitted` backlog items
/// were admitted.
pub open spec fn ticked(before: MainState, after: MainState, rs: Seq<Received>, admitted: nat) -> bool {
    let kept = retained(before.tasks@, rs, before.tasks@.len() as int);
    &&& rs.len() == before.tasks@.len()
    &&& messages_view(after.messages@) == messages_view(before.messages@)
        + gathered(before.tasks@, rs, rs.len() as int)
    &&& admitted == admitted_count(kept.len() as nat, before.backlog@.len() as nat)
    &&& after.backlog@ == before.backlog@.skip(admitted as int)
    &&& after.tasks@.take(kept.len() as int) == kept
    &&& after.tasks@.len() == kept.len() + admitted
}

impl MainState {
    /// At most `MAX_WORKERS` tasks run.
    pub open spec fn wf(&self) -> bool {
        self.tasks@.len() <= MAX_WORKERS
    }

    /// An idle pipeline with an empty log.
    pub fn new() -> (r: Self)
        ensures
            r.wf(),
            r.messages@.len() == 0,
            r.tasks@.len() == 0,
            r.backlog@.len() == 0,
    {
        MainState { messages: Vec::new(), tasks: Vec::new(), backlog: Vec::new() }
    }

    /// Empties the message log, the one way in which messages leave it.
    pub fn clear_messages(&mut self)
        requires
            old(self).wf(),
        ensures
            final(self).wf(),
            final(self).messages@.len() == 0,
            final(self).tasks == old(self).tasks,
            final(self).backlog == old(self).backlog,
    {
        self.messages.clear();
    }

    /// The number of work items not yet finished: running or waiting.
    pub fn pending_count(&self) -> (r: usize)
        requires
            self.wf(),
            self.backlog@.len() + MAX_WORKERS <= usize::MAX,
        ensures
            r == self.tasks@.len() + self.backlog@.len(),
    {
        self.tasks.len() + self.backlog.len()
    }

    /// Starts a task for `item`: a new channel, a running task with the
    /// receiver, and the dispatch with the sender.
    fn start(&mut self, item: BacklogTask) -> (r: Dispatch)
        requires
            old(self).tasks@.len() < MAX_WORKERS,
        ensures
            final(self).tasks@.len() == old(self).tasks@.len() + 1,
            final(self).tasks@.take(old(self).tasks@.len() as int) == old(self).tasks@,
            started_for(final(self).tasks@.last(), item.path),
            r.path == item.path,
            r.modifiers == item.modifiers,
            final(self).backlog == old(self).backlog,
            final(self).messages == old(self).messages,
    {
        let (sender, receiver) = channel();
        let path = item.path;
        let task = Task::new(path.clone(), receiver);
        self.tasks.push(task);
        proof {
            assert(final(self).tasks@.take(old(self).tasks@.len() as int) =~= old(self).tasks@);
        }
        Dispatch { path, modifiers: item.modifiers, sender }
    }

    /// Takes a new work item. With a free slot it runs at once, and the
    /// dispatch is handed back; else it joins the backlog's tail.
    pub fn enqueue(&mut self, path: String, modifiers: Modifiers) -> (r: Option<Dispatch>)
        requires
            old(self).wf(),
        ensures
            final(self).wf(),
            (final(self).tasks@.len() as nat, final(self).backlog@) == enqueue_model(
                old(self).tasks@.len() as nat,
                old(self).backlog@,
                BacklogTask { path, modifiers },
            ),
            final(self).messages == old(self).messages,
            old(self).tasks@.len() < MAX_WORKERS ==> {
                &&& r is Some
                &&& r->Some_0.path == path
                &&& r->Some_0.modifiers == modifiers
                &&& final(self).tasks@.take(old(self).tasks@.len() as int) == old(self).tasks@
                &&& started_for(final(self).tasks@.last(), path)
            },
            old(self).tasks@.len() >= MAX_WORKERS ==> r is None && final(self).tasks == old(self).tasks,
    {
        let item = BacklogTask { path, modifiers };
        if self.tasks.len() < MAX_WORKERS {
            Some(self.start(item))
        } else {
            self.backlog.push(item);
            None
        }
    }

    /// Takes what a look at each running task's channel found, in task
    /// order: the messages of finished tasks join the log in that order, and
    /// finished tasks leave.
    pub fn collect(&mut self, received: Vec<Received>)
        requires
            old(self).wf(),
            received@.len() == old(self).tasks@.len(),
        ensures
            final(self).wf(),
            final(self).tasks@ == retained(old(self).tasks@, received@, received@.len() as int),
            messages_view(final(self).messages@) == messages_view(old(self).messages@)
                + gathered(old(self).tasks@, received@, received@.len() as int),
            final(self).backlog == old(self).backlog,
    {
        let ghost ts = self.tasks@;
        let ghost rs = received@;
        let ghost old_messages = messages_view(self.messages@);
        let mut rest: Vec<Task> = Vec::new();
        std::mem::swap(&mut rest, &mut self.tasks);
        let mut outcomes = received;
        let mut i: usize = 0;
        while rest.len() > 0
            invariant
                rest@ == ts.skip(i as int),
                outcomes@ == rs.skip(i as int),
                rs.len() == ts.len(),
                ts.len() <= MAX_WORKERS,
                i <= ts.len(),
                self.tasks@ == retained(ts, rs, i as int),
                self.tasks@.len() <= i,
                messages_view(self.messages@) == old_messages + gathered(ts, rs, i as int),
                self.backlog == old(self).backlog,
            decreases rest@.len(),
        {
            let mut task = rest.remove(0);
            let outcome = outcomes.remove(0);
            proof {
                assert(task == ts[i as int]);
                assert(outcome == rs[i as int]);
            }
            let ghost before = self.messages@;
            let was_done = task.done;
            let is_empty = match &outcome { Received::Empty => true, _ => false };
            match task.settle(outcome) {
                Some(mut batch) => {
                    let ghost b = batch@;
                    self.messages.append(&mut batch);
                    proof {
                        assert(messages_view(self.messages@) =~= messages_view(before) + messages_view(b));
                    }
                },
                None => {},
            }
            if !was_done && is_empty {
                self.tasks.push(task);
            }
            proof {
                assert(rest@ =~= ts.skip(i + 1));
                assert(outcomes@ =~= rs.skip(i + 1));
                assert(messages_view(self.messages@) =~= old_messages + gathered(ts, rs, i + 1));
            }
            i = i + 1;
        }
    }

    /// Moves items from the backlog's head into the free slots, in backlog
    /// order, and hands back their dispatches in that order.
    pub fn admit_from_backlog(&mut self) -> (r: Vec<Dispatch>)
        requires
            old(self).wf(),
        ensures
            final(self).wf(),
            r@.len() == admitted_count(old(self).tasks@.len() as nat, old(self).backlog@.len() as nat),
            final(self).backlog@ == old(self).backlog@.skip(r@.len() as int),
            final(self).tasks@.len() == old(self).tasks@.len() + r@.len(),
            final(self).tasks@.take(old(self).tasks@.len() as int) == old(self).tasks@,
            forall|j: int| 0 <= j < r@.len() ==> (#[trigger] r@[j]).path == old(self).backlog@[j].path,
            forall|j: int| 0 <= j < r@.len() ==> (#[trigger] r@[j]).modifiers == old(self).backlog@[j].modifiers,
            forall|j: int| 0 <= j < r@.len() ==>
                started_for(final(self).tasks@[old(self).tasks@.len() + j], #[trigger] old(self).backlog@[j].path),
            final(self).messages == old(self).messages,
    {
        let ghost t0 = self.tasks@;
        let ghost b0 = self.backlog@;
        let free = MAX_WORKERS - self.tasks.len();
        let count = if free < self.backlog.len() { free } else { self.backlog.len() };
        let mut out: Vec<Dispatch> = Vec::new();
        let mut j: usize = 0;
        while j < count
            invariant
                t0 == old(self).tasks@,
                b0 == old(self).backlog@,
                count == admitted_count(t0.len() as nat, b0.len() as nat),
                count <= b0.len(),
                t0.len() + count <= MAX_WORKERS,
                j <= count,
                out@.len() == j,
                self.backlog@ == b0.skip(j as int),
                self.tasks@.len() == t0.len() + j,
                self.tasks@.take(t0.len() as int) == t0,
                forall|k: int| 0 <= k < j ==> {
                    &&& (#[trigger] out@[k]).path == b0[k].path
                    &&& out@[k].modifiers == b0[k].modifiers
                    &&& started_for(self.tasks@[t0.len() + k], b0[k].path)
                },
                self.messages == old(self).messages,
            decreases count - j,
        {
            let item = self.backlog.remove(0);
            proof {
                assert(item == b0[j as int]);
            }
            let ghost before = self.tasks@;
            let d = self.start(item);
            out.push(d);
            proof {
                assert(self.backlog@ =~= b0.skip(j + 1));
                assert(self.tasks@.take(t0.len() as int) =~= before.take(t0.len() as int));
                assert forall|k: int| 0 <= k < j + 1 implies {
                    &&& (#[trigger] out@[k]).path == b0[k].path
                    &&& out@[k].modifiers == b0[k].modifiers
                    &&& started_for(self.tasks@[t0.len() + k], b0[k].path)
                } by {
                    if k < j {
                        assert(self.tasks@[t0.len() + k] == before[t0.len() + k]);
                    }
                }
            }
            j = j + 1;
        }
        proof {
            assert forall|k: int| 0 <= k < out@.len() implies
                started_for(self.tasks@[old(self).tasks@.len() + k], #[trigger] old(self).backlog@[k].path) by {
                assert(out@[k].path == b0[k].path);
                assert(started_for(self.tasks@[t0.len() + k], b0[k].path));
            }
        }
        out
    }

    /// One tick: looks at every running task's channel, gathers the messages
    /// of finished tasks into the log, then fills the free slots from the
    /// backlog's head. Hands back the dispatches of the admitted items.
    pub fn update_backlog(&mut self) -> (r: Vec<Dispatch>)
        requires
            old(self).wf(),
        ensures
            final(self).wf(),
            exists|rs: Seq<Received>| #[trigger] ticked(*old(self), *final(self), rs, r@.len() as nat),
            forall|j: int| 0 <= j < r@.len() ==> (#[trigger] r@[j]).path == old(self).backlog@[j].path,
            forall|j: int| 0 <= j < r@.len() ==> (#[trigger] r@[j]).modifiers == old(self).backlog@[j].modifiers,
            forall|j: int| 0 <= j < r@.len() ==>
                started_for(final(self).tasks@[final(self).tasks@.len() - r@.len() + j], #[trigger] old(self).backlog@[j].path),
    {
        let mut received: Vec<Received> = Vec::new();
        let mut i: usize = 0;
        while i < self.tasks.len()
            invariant
                received@.len() == i,
                i <= self.tasks@.len(),
                self == old(self),
            decreases self.tasks@.len() - i,
        {
            received.push(try_receive(&self.tasks[i].receiver));
            i = i + 1;
        }
        let ghost rs = received@;
        self.collect(received);
        let ghost mid = self.tasks@;
        let r = self.admit_from_backlog();
        proof {
            assert(mid == retained(old(self).tasks@, rs, rs.len() as int));
            assert(ticked(*old(self), *self, rs, r@.len() as nat));
            assert forall|j: int| 0 <= j < r@.len() implies
                started_for(self.tasks@[self.tasks@.len() - r@.len() + j], #[trigger] old(self).backlog@[j].path) by {
                assert(started_for(self.tasks@[mid.len() + j], old(self).backlog@[j].path));
            }
        }
        r
    }
}

/// Admission bound: from a state with `running <= MAX_WORKERS`, enqueuing
/// `items` in order starts the first `k` of them, `k` being the number of
/// free slots or of items, whichever is smaller, and appends the others to
/// the backlog in order; the running count stays at most `MAX_WORKERS`.
/// So on an idle pipeline `n` items leave `min(n, MAX_WORKERS)` running and
/// the remaining `n - MAX_WORKERS` (when positive) waiting.
pub proof fn lemma_burst_admission(running: nat, backlog: Seq<BacklogTask>, items: Seq<BacklogTask>)
    requires
        running <= MAX_WORKERS,
    ensures
        ({
            let k = admitted_count(running, items.len());
            &&& burst_model(running, backlog, items) == (running + k, backlog + items.skip(k as int))
            &&& running + k <= MAX_WORKERS
        }),
    decreases items.len(),
{
    if items.len() > 0 {
        let front = items.drop_last();
        lemma_burst_admission(running, backlog, front);
        let k = admitted_count(running, front.len());
        if admitted_count(running, items.len()) == k {
            assert(items.skip(k as int) =~= front.skip(k as int).push(items.last()));
            assert(backlog + items.skip(k as int) =~= (backlog + front.skip(k as int)).push(items.last()));
        } else {
            assert(items.skip((k + 1) as int) =~= front.skip(k as int));
        }
    } else {
        assert(backlog + items.skip(0) =~= backlog);
    }
}

/// Backlog first-in first-out: two successive admissions take the
/// backlog's items from its head, in order, and leave the rest in order.
pub proof fn lemma_backlog_fifo(backlog: Seq<BacklogTask>, running1: nat, running2: nat)
    ensures
        ({
            let k1 = admitted_count(running1, backlog.len());
            let rest = backlog.skip(k1 as int);
            let k2 = admitted_count(running2, rest.len());
            &&& backlog.take(k1 as int) + rest.take(k2 as int) == backlog.take((k1 + k2) as int)
            &&& rest.skip(k2 as int) == backlog.skip((k1 + k2) as int)
        }),
{
    let k1 = admitted_count(running1, backlog.len());
    let rest = backlog.skip(k1 as int);
    let k2 = admitted_count(running2, rest.len());
    assert(backlog.take(k1 as int) + rest.take(k2 as int) =~= backlog.take((k1 + k2) as int));
    assert(rest.skip(k2 as int) =~= backlog.skip((k1 + k2) as int));
}

/// The messages of the looks at tasks `a` up to `n`, in task order.
pub open spec fn gathered_between(ts: Seq<Task>, rs: Seq<Received>, a: int, n: int) -> Seq<MessageView>
    decreases n - a,
{
    if n <= a {
        seq![]
    } else if keeps_running(ts[n - 1], rs[n - 1]) || rs[n - 1] is Empty {
        gathered_between(ts, rs, a, n - 1)
    } else {
        gathered_between(ts, rs, a, n - 1) + batch_view(rs[n - 1])
    }
}

proof fn lemma_gathered_split(ts: Seq<Task>, rs: Seq<Received>, a: int, n: int)
    requires
        0 <= a <= n,
    ensures
        gathered(ts, rs, n) == gathered(ts, rs, a) + gathered_between(ts, rs, a, n),
    decreases n - a,
{
    if n > a {
        lemma_gathered_split(ts, rs, a, n - 1);
        assert(gathered(ts, rs, n) =~= gathered(ts, rs, a) + gathered_between(ts, rs, a, n));
    } else {
        assert(gathered(ts, rs, a) + gathered_between(ts, rs, a, n) =~= gathered(ts, rs, n));
    }
}

proof fn lemma_gathered_between_local(ts: Seq<Task>, rs1: Seq<Received>, rs2: Seq<Received>, a: int, n: int)
    requires
        forall|j: int| a <= j < n ==> rs1[j] == rs2[j],
    ensures
        gathered_between(ts, rs1, a, n) == gathered_between(ts, rs2, a, n),
    decreases n - a,
{
    if n > a {
        lemma_gathered_between_local(ts, rs1, rs2, a, n - 1);
    }
}

proof fn lemma_retained_local(ts: Seq<Task>, rs1: Seq<Received>, rs2: Seq<Received>, i: int, n: int)
    requires
        0 <= i,
        forall|j: int| 0 <= j < n && j != i ==> rs1[j] == rs2[j],
        keeps_running(ts[i], rs1[i]) == keeps_running(ts[i], rs2[i]) || n <= i,
    ensures
        retained(ts, rs1, n) == retained(ts, rs2, n),
    decreases n,
{
    if n > 0 {
        lemma_retained_local(ts, rs1, rs2, i, n - 1);
    }
}

/// Isolation: what one task's look finds (a failure batch, say) changes
/// nothing of the others. The messages gathered from the tasks before and
/// after it are the same whatever it found, and when it finishes either
/// way, so are the tasks that keep running.
pub proof fn lemma_isolation(ts: Seq<Task>, rs1: Seq<Received>, rs2: Seq<Received>, i: int)
    requires
        0 <= i < ts.len(),
        rs1.len() == ts.len(),
        rs2.len() == ts.len(),
        forall|j: int| 0 <= j < ts.len() && j != i ==> rs1[j] == rs2[j],
    ensures
        gathered(ts, rs1, ts.len() as int) == gathered(ts, rs1, i) + gathered_between(ts, rs1, i, i + 1)
            + gathered_between(ts, rs1, i + 1, ts.len() as int),
        gathered(ts, rs2, ts.len() as int) == gathered(ts, rs2, i) + gathered_between(ts, rs2, i, i + 1)
            + gathered_between(ts, rs2, i + 1, ts.len() as int),
        gathered(ts, rs1, i) == gathered(ts, rs2, i),
        gathered_between(ts, rs1, i + 1, ts.len() as int) == gathered_between(ts, rs2, i + 1, ts.len() as int),
        !(rs1[i] is Empty) && !(rs2[i] is Empty) ==>
            retained(ts, rs1, ts.len() as int) == retained(ts, rs2, ts.len() as int),
{
    let n = ts.len() as int;
    lemma_gathered_split(ts, rs1, i, n);
    lemma_gathered_split(ts, rs2, i, n);
    lemma_gathered_split(ts, rs1, 0, i);
    lemma_gathered_split(ts, rs2, 0, i);
    lemma_gathered_between_local(ts, rs1, rs2, 0, i);
    lemma_gathered_between_local(ts, rs1, rs2, i + 1, n);
    assert(gathered(ts, rs1, 0) == gathered(ts, rs2, 0));
    lemma_gathered_split(ts, rs1, i + 1, n);
    lemma_gathered_split(ts, rs1, i, i + 1);
    lemma_gathered_split(ts, rs2, i + 1, n);
    lemma_gathered_split(ts, rs2, i, i + 1);
    lemma_gathered_split_mid(ts, rs1, i, n);
    lemma_gathered_split_mid(ts, rs2, i, n);
    if !(rs1[i] is Empty) && !(rs2[i] is Empty) {
        lemma_retained_local(ts, rs1, rs2, i, n);
    }
}

proof fn lemma_gathered_split_mid(ts: Seq<Task>, rs: Seq<Received>, i: int, n: int)
    requires
        0 <= i < n,
    ensures
        gathered_between(ts, rs, i, n) == gathered_between(ts, rs, i, i + 1) + gathered_between(ts, rs, i + 1, n),
    decreases n - i,
{
    if n > i + 1 {
        lemma_gathered_split_mid(ts, rs, i, n - 1);
        assert(gathered_between(ts, rs, i, n) =~= gathered_between(ts, rs, i, i + 1) + gathered_between(ts, rs, i + 1, n));
    } else {
        assert(gathered_between(ts, rs, i, i + 1) + gathered_between(ts, rs, i + 1, n) =~= gathered_between(ts, rs, i, n));
    }
}

} // verus!
