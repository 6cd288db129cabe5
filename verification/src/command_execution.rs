//! Command execution: a queue of framed tasks run under a command quota,
//! with forks bounded by a limit, a queue bounded in depth, returns that
//! discard the continuations of their frame, and tracing of what runs.

use vstd::prelude::*;
use std::collections::VecDeque;
use crate::text::push_str;
use crate::search::{embeds, subsequence};

verus! {

pub const EXECUTION_PACKAGE_NULL_MARKED: bool = true;

pub const EXECUTION_TASKS_PACKAGE_NULL_MARKED: bool = true;

/// The largest queue a context allows unless it is given another bound.
pub const MAX_QUEUE_DEPTH: usize = 10_000_000;

#[derive(Debug, Clone, Copy, PartialEq, Eq)]
pub enum EntityAnchor {
    Feet,
    Eyes,
}

#[derive(Debug, Clone, Copy, PartialEq, Eq, Structural)]
pub enum ResultCallback {
    Empty,
    StoreSuccess,
    StoreResult,
    ReturnFrame,
}

#[derive(Debug, Clone, Copy, PartialEq, Eq, Structural)]
pub struct CommandOutcome {
    pub success: bool,
    pub result: i32,
}

/// A unit of work: a command line or a function call, each run for a
/// source and possibly returning from its frame, or a fallthrough.
#[derive(Debug, PartialEq, Eq)]
pub enum CommandTask {
    Command { command: String, source: String, returning: bool },
    FunctionCall { id: String, source: String, returning: bool },
    Fallthrough,
}

/// The value of a task: its texts as characters.
pub enum TaskView {
    Command(Seq<char>, Seq<char>, bool),
    FunctionCall(Seq<char>, Seq<char>, bool),
    Fallthrough,
}

impl CommandTask {
    pub open spec fn view(&self) -> TaskView {
        match self {
            CommandTask::Command { command, source, returning } => TaskView::Command(command@, source@, *returning),
            CommandTask::FunctionCall { id, source, returning } => TaskView::FunctionCall(id@, source@, *returning),
            CommandTask::Fallthrough => TaskView::Fallthrough,
        }
    }

    /// Whether running the task returns from its frame.
    pub open spec fn is_returning(&self) -> bool {
        match self {
            CommandTask::Command { returning, .. } => *returning,
            CommandTask::FunctionCall { returning, .. } => *returning,
            CommandTask::Fallthrough => false,
        }
    }

    fn returning(&self) -> (r: bool)
        ensures
            r == self.is_returning(),
    {
        match self {
            CommandTask::Command { returning, .. } => *returning,
            CommandTask::FunctionCall { returning, .. } => *returning,
            CommandTask::Fallthrough => false,
        }
    }
}

impl Clone for CommandTask {
    fn clone(&self) -> (r: Self)
        ensures
            r@ == self@,
    {
        match self {
            CommandTask::Command { command, source, returning } => CommandTask::Command {
                command: command.clone(),
                source: source.clone(),
                returning: *returning,
            },
            CommandTask::FunctionCall { id, source, returning } => CommandTask::FunctionCall {
                id: id.clone(),
                source: source.clone(),
                returning: *returning,
            },
            CommandTask::Fallthrough => CommandTask::Fallthrough,
        }
    }
}

/// Flags that modify a chain of commands: forked, and returning.
#[derive(Debug, Clone, Copy, PartialEq, Eq, Structural)]
pub struct ChainModifiersModel {
    flags: u8,
}

const FLAG_FORKED: u8 = 1;

const FLAG_RETURN: u8 = 2;

impl ChainModifiersModel {
    pub closed spec fn flags_view(&self) -> u8 {
        self.flags
    }

    pub fn flags(self) -> (r: u8)
        ensures
            r == self.flags_view(),
    {
        self.flags
    }

    pub fn is_forked(self) -> (r: bool)
        ensures
            r == (self.flags_view() & 1 != 0),
    {
        self.flags & FLAG_FORKED != 0
    }

    pub fn set_forked(self) -> (r: Self)
        ensures
            r.flags_view() == self.flags_view() | 1,
    {
        self.set_flag(FLAG_FORKED)
    }

    pub fn is_return(self) -> (r: bool)
        ensures
            r == (self.flags_view() & 2 != 0),
    {
        self.flags & FLAG_RETURN != 0
    }

    pub fn set_return(self) -> (r: Self)
        ensures
            r.flags_view() == self.flags_view() | 2,
    {
        self.set_flag(FLAG_RETURN)
    }

    fn set_flag(self, flag: u8) -> (r: Self)
        ensures
            r.flags_view() == self.flags_view() | flag,
    {
        let new_flags = self.flags | flag;
        if new_flags == self.flags {
            self
        } else {
            ChainModifiersModel { flags: new_flags }
        }
    }
}

impl Default for ChainModifiersModel {
    /// No flag set.
    fn default() -> (r: Self)
        ensures
            r.flags_view() == 0,
    {
        ChainModifiersModel { flags: 0 }
    }
}

/// A frame of execution: its depth, the value it returned, and whether
/// its remaining work was discarded.
#[derive(Debug, Clone, Copy, PartialEq, Eq)]
pub struct CommandFrame {
    pub depth: usize,
    pub return_value: Option<CommandOutcome>,
    pub discarded: bool,
}

impl CommandFrame {
    pub fn return_success(&mut self, value: i32)
        ensures
            *final(self) == (CommandFrame {
                return_value: Some(CommandOutcome { success: true, result: value }),
                ..*old(self)
            }),
    {
        self.return_value = Some(CommandOutcome { success: true, result: value });
    }

    pub fn return_failure(&mut self)
        ensures
            *final(self) == (CommandFrame {
                return_value: Some(CommandOutcome { success: false, result: 0 }),
                ..*old(self)
            }),
    {
        self.return_value = Some(CommandOutcome { success: false, result: 0 });
    }

    pub fn discard(&mut self)
        ensures
            *final(self) == (CommandFrame { discarded: true, ..*old(self) }),
    {
        self.discarded = true;
    }
}

/// A fresh frame at the depth.
pub fn current_frame(depth: usize) -> (r: CommandFrame)
    ensures
        r == (CommandFrame { depth, return_value: None, discarded: false }),
{
    CommandFrame { depth, return_value: None, discarded: false }
}

#[derive(Debug, PartialEq, Eq)]
pub enum TraceEventModel {
    Command { depth: usize, command: String },
    Return { depth: usize, command: String, result: i32 },
    Error(String),
    Call { depth: usize, function: String, size: usize },
    Closed,
}

/// The value of a trace event: its texts as characters.
pub enum EventView {
    Command(usize, Seq<char>),
    Return(usize, Seq<char>, i32),
    Error(Seq<char>),
    Call(usize, Seq<char>, usize),
    Closed,
}

impl TraceEventModel {
    pub open spec fn view(&self) -> EventView {
        match self {
            TraceEventModel::Command { depth, command } => EventView::Command(*depth, command@),
            TraceEventModel::Return { depth, command, result } => EventView::Return(*depth, command@, *result),
            TraceEventModel::Error(message) => EventView::Error(message@),
            TraceEventModel::Call { depth, function, size } => EventView::Call(*depth, function@, *size),
            TraceEventModel::Closed => EventView::Closed,
        }
    }
}

/// The values of trace events, in order.
pub open spec fn events_view(events: Seq<TraceEventModel>) -> Seq<EventView> {
    events.map_values(|e: TraceEventModel| e@)
}

/// A tracer that records what execution reports, in order.
#[derive(Debug, Default, PartialEq, Eq)]
pub struct TraceCallbacksModel {
    pub events: Vec<TraceEventModel>,
}

impl TraceCallbacksModel {
    pub open spec fn recorded(&self) -> Seq<EventView> {
        events_view(self.events@)
    }

    fn record(&mut self, event: TraceEventModel)
        ensures
            final(self).recorded() == old(self).recorded().push(event@),
    {
        self.events.push(event);
        assert(events_view(self.events@) =~= events_view(old(self).events@).push(event@));
    }

    pub fn on_command(&mut self, depth: usize, command: &str)
        ensures
            final(self).recorded() == old(self).recorded().push(EventView::Command(depth, command@)),
    {
        self.record(TraceEventModel::Command { depth, command: command.to_owned() });
    }

    pub fn on_return(&mut self, depth: usize, command: &str, result: i32)
        ensures
            final(self).recorded() == old(self).recorded().push(EventView::Return(depth, command@, result)),
    {
        self.record(TraceEventModel::Return { depth, command: command.to_owned(), result });
    }

    pub fn on_error(&mut self, message: &str)
        ensures
            final(self).recorded() == old(self).recorded().push(EventView::Error(message@)),
    {
        self.record(TraceEventModel::Error(message.to_owned()));
    }

    pub fn on_call(&mut self, depth: usize, function: &str, size: usize)
        ensures
            final(self).recorded() == old(self).recorded().push(EventView::Call(depth, function@, size)),
    {
        self.record(TraceEventModel::Call { depth, function: function.to_owned(), size });
    }

    pub fn close(&mut self)
        ensures
            final(self).recorded() == old(self).recorded().push(EventView::Closed),
    {
        self.record(TraceEventModel::Closed);
    }
}

/// The outcomes that a chain of result callbacks receives for one outcome:
/// one for each callback that is not empty.
pub open spec fn propagated(callbacks: Seq<ResultCallback>, outcome: CommandOutcome) -> Seq<CommandOutcome>
    decreases callbacks.len(),
{
    if callbacks.len() == 0 {
        seq![]
    } else {
        let rest = propagated(callbacks.drop_last(), outcome);
        if callbacks.last() == ResultCallback::Empty { rest } else { rest.push(outcome) }
    }
}

pub fn propagate_results(callbacks: &[ResultCallback], outcome: CommandOutcome) -> (r: Vec<CommandOutcome>)
    ensures
        r@ == propagated(callbacks@, outcome),
{
    let mut out: Vec<CommandOutcome> = Vec::new();
    let mut i: usize = 0;
    while i < callbacks.len()
        invariant
            0 <= i <= callbacks@.len(),
            out@ == propagated(callbacks@.subrange(0, i as int), outcome),
        decreases callbacks@.len() - i,
    {
        assert(callbacks@.subrange(0, i + 1).drop_last() =~= callbacks@.subrange(0, i as int));
        if callbacks[i] != ResultCallback::Empty {
            out.push(outcome);
        }
        i = i + 1;
    }
    assert(callbacks@.subrange(0, callbacks@.len() as int) =~= callbacks@);
    out
}

/// A chain of callbacks with one more: the empty chain is replaced, and an
/// empty callback adds nothing.
pub open spec fn chained_callbacks(existing: Seq<ResultCallback>, next: ResultCallback) -> Seq<ResultCallback> {
    if existing == seq![ResultCallback::Empty] {
        seq![next]
    } else if next == ResultCallback::Empty {
        existing
    } else {
        existing.push(next)
    }
}

pub fn chain_callbacks(existing: &[ResultCallback], next: ResultCallback) -> (r: Vec<ResultCallback>)
    ensures
        r@ == chained_callbacks(existing@, next),
{
    if existing.len() == 1 && existing[0] == ResultCallback::Empty {
        assert(existing@ =~= seq![ResultCallback::Empty]);
        let mut out: Vec<ResultCallback> = Vec::new();
        out.push(next);
        assert(out@ =~= seq![next]);
        return out;
    }
    assert(existing@ != seq![ResultCallback::Empty]) by {
        if existing@ == seq![ResultCallback::Empty] {
            assert(existing@.len() == 1 && existing@[0] == ResultCallback::Empty);
        }
    }
    let mut out: Vec<ResultCallback> = Vec::new();
    let mut i: usize = 0;
    while i < existing.len()
        invariant
            0 <= i <= existing@.len(),
            out@ == existing@.subrange(0, i as int),
        decreases existing@.len() - i,
    {
        out.push(existing[i]);
        i = i + 1;
        assert(out@ =~= existing@.subrange(0, i as int));
    }
    assert(existing@.subrange(0, existing@.len() as int) =~= existing@);
    if next != ResultCallback::Empty {
        out.push(next);
    }
    out
}

/// Runs a custom command whose work is guarded: its outcome is recorded
/// and returned; an error is traced with whether the chain was forked and
/// recorded as a failure.
pub fn run_guarded_custom_command(
    callbacks: &mut Vec<CommandOutcome>,
    tracer: Option<&mut TraceCallbacksModel>,
    modifiers: ChainModifiersModel,
    guarded: Result<CommandOutcome, &str>,
) -> (r: Option<CommandOutcome>)
    ensures
        match guarded {
            Ok(outcome) => r == Some(outcome) && final(callbacks)@ == old(callbacks)@.push(outcome),
            Err(_) => r is None && final(callbacks)@ == old(callbacks)@.push(CommandOutcome { success: false, result: 0 }),
        },
        match (guarded, tracer) {
            (Err(message), Some(t)) => final(t).recorded() == (*t).recorded().push(
                EventView::Error(message@ + if modifiers.flags_view() & 1 != 0 { " forked"@ } else { " single"@ }),
            ),
            (_, Some(t)) => final(t).recorded() == (*t).recorded(),
            (_, None) => true,
        },
{
    match guarded {
        Ok(outcome) => {
            callbacks.push(outcome);
            Some(outcome)
        },
        Err(message) => {
            match tracer {
                Some(t) => {
                    let mut line = message.to_owned();
                    if modifiers.is_forked() {
                        push_str(&mut line, " forked");
                    } else {
                        push_str(&mut line, " single");
                    }
                    t.on_error(line.as_str());
                },
                None => {},
            }
            callbacks.push(CommandOutcome { success: false, result: 0 });
            None
        },
    }
}

/// The queue and its overflow mark after an entry is pushed to the front: a
/// queue longer than the bound is cleared and marked overflowed instead, and
/// an overflowed queue takes nothing.
pub open spec fn pushed<E>(queue: Seq<E>, overflow: bool, max: usize, entry: E) -> (Seq<E>, bool) {
    if queue.len() > max {
        (seq![], true)
    } else if !overflow {
        (seq![entry] + queue, overflow)
    } else {
        (queue, overflow)
    }
}

/// The queue and its overflow mark after the entries are pushed in order.
pub open spec fn pushed_all<E>(queue: Seq<E>, overflow: bool, max: usize, entries: Seq<E>) -> (Seq<E>, bool)
    decreases entries.len(),
{
    if entries.len() == 0 {
        (queue, overflow)
    } else {
        let s = pushed_all(queue, overflow, max, entries.drop_last());
        pushed(s.0, s.1, max, entries.last())
    }
}

/// The entries of the queue that are shallower than `depth`, in order.
pub open spec fn shallower<E>(queue: Seq<(CommandFrame, E)>, depth: usize) -> Seq<(CommandFrame, E)>
    decreases queue.len(),
{
    if queue.len() == 0 {
        seq![]
    } else {
        let rest = shallower(queue.drop_last(), depth);
        if queue.last().0.depth < depth { rest.push(queue.last()) } else { rest }
    }
}

/// The value of a queue entry.
pub open spec fn entry_view(e: (CommandFrame, CommandTask)) -> (CommandFrame, TaskView) {
    (e.0, e.1@)
}

/// The values of the queue's entries, front first.
pub open spec fn queue_view(q: Seq<(CommandFrame, CommandTask)>) -> Seq<(CommandFrame, TaskView)> {
    q.map_values(|e: (CommandFrame, CommandTask)| entry_view(e))
}

/// The tracer after an event: an absent tracer stays absent.
pub open spec fn traced(before: Option<TraceCallbacksModel>, after: Option<TraceCallbacksModel>, event: EventView) -> bool {
    match before {
        Some(t) => after matches Some(u) && u.recorded() == t.recorded().push(event),
        None => after is None,
    }
}

/// The state of a context for running commands.
#[derive(Debug, PartialEq, Eq)]
pub struct ExecutionContextModel {
    pub command_limit: usize,
    pub fork_limit: usize,
    pub max_queue_depth: usize,
    pub quota: usize,
    pub current_depth: usize,
    pub queue: VecDeque<(CommandFrame, CommandTask)>,
    pub queue_overflow: bool,
    pub fork_limit_reached: bool,
    pub callbacks: Vec<CommandOutcome>,
    pub tracer: Option<TraceCallbacksModel>,
}

/// The two contexts agree but for the queue and its overflow mark.
pub open spec fn same_but_queue(a: ExecutionContextModel, b: ExecutionContextModel) -> bool {
    &&& a.command_limit == b.command_limit
    &&& a.fork_limit == b.fork_limit
    &&& a.max_queue_depth == b.max_queue_depth
    &&& a.quota == b.quota
    &&& a.current_depth == b.current_depth
    &&& a.fork_limit_reached == b.fork_limit_reached
    &&& a.callbacks == b.callbacks
    &&& a.tracer == b.tracer
}

impl ExecutionContextModel {
    /// A context with the command quota and fork limit, an empty queue and
    /// the default queue bound.
    pub fn new(command_limit: usize, fork_limit: usize) -> (r: Self)
        ensures
            r.command_limit == command_limit,
            r.fork_limit == fork_limit,
            r.max_queue_depth == MAX_QUEUE_DEPTH,
            r.quota == command_limit,
            r.current_depth == 0,
            r.queue@.len() == 0,
            !r.queue_overflow,
            !r.fork_limit_reached,
            r.callbacks@.len() == 0,
            r.tracer is None,
    {
        ExecutionContextModel {
            command_limit,
            fork_limit,
            max_queue_depth: MAX_QUEUE_DEPTH,
            quota: command_limit,
            current_depth: 0,
            queue: VecDeque::new(),
            queue_overflow: false,
            fork_limit_reached: false,
            callbacks: Vec::new(),
            tracer: None,
        }
    }

    pub fn with_max_queue_depth(self, max_queue_depth: usize) -> (r: Self)
        ensures
            r == (ExecutionContextModel { max_queue_depth, ..self }),
    {
        ExecutionContextModel { max_queue_depth, ..self }
    }

    pub fn tracer(&self) -> (r: Option<&TraceCallbacksModel>)
        ensures
            match self.tracer {
                Some(t) => r == Some(&t),
                None => r is None,
            },
    {
        match &self.tracer {
            Some(t) => Some(t),
            None => None,
        }
    }

    pub fn set_tracer(&mut self, tracer: Option<TraceCallbacksModel>)
        ensures
            *final(self) == (ExecutionContextModel { tracer, ..*old(self) }),
    {
        self.tracer = tracer;
    }

    /// Tells the tracer, if there is one, that execution is over.
    pub fn close(&mut self)
        ensures
            traced(old(self).tracer, final(self).tracer, EventView::Closed),
            *final(self) == (ExecutionContextModel { tracer: final(self).tracer, ..*old(self) }),
    {
        match self.tracer.take() {
            Some(mut t) => {
                t.close();
                self.tracer = Some(t);
            },
            None => {},
        }
    }

    /// Spends one command of the quota, if any is left.
    pub fn increment_cost(&mut self)
        ensures
            *final(self) == (ExecutionContextModel {
                quota: if old(self).quota > 0 { (old(self).quota - 1) as usize } else { 0 },
                ..*old(self)
            }),
    {
        self.quota = self.quota.saturating_sub(1);
    }

    /// Pushes a task to the front of the queue, unless the queue has
    /// overflowed or overflows now.
    pub fn queue_next(&mut self, frame: CommandFrame, task: CommandTask)
        ensures
            same_but_queue(*old(self), *final(self)),
            (final(self).queue@, final(self).queue_overflow)
                == pushed(old(self).queue@, old(self).queue_overflow, old(self).max_queue_depth, (frame, task)),
    {
        if self.queue.len() > self.max_queue_depth {
            self.queue.clear();
            self.queue_overflow = true;
            return;
        }
        if !self.queue_overflow {
            let ghost before = self.queue@;
            self.queue.push_front((frame, task));
            assert(self.queue@ =~= seq![(frame, task)] + before);
        }
    }

    /// Drops the queued entries at the depth or deeper.
    pub fn discard_at_depth_or_higher(&mut self, depth: usize)
        ensures
            *final(self) == (ExecutionContextModel { queue: final(self).queue, ..*old(self) }),
            final(self).queue@ == shallower(old(self).queue@, depth),
    {
        let ghost all = self.queue@;
        let n = self.queue.len();
        let mut kept: VecDeque<(CommandFrame, CommandTask)> = VecDeque::new();
        let mut i: usize = 0;
        while i < n
            invariant
                0 <= i <= n,
                n == all.len(),
                self.queue@ == all.subrange(i as int, n as int),
                *self == (ExecutionContextModel { queue: self.queue, ..*old(self) }),
                kept@ == shallower(all.subrange(0, i as int), depth),
            decreases n - i,
        {
            let entry = match self.queue.pop_front() {
                Some(entry) => entry,
                None => {
                    assert(false);
                    return;
                },
            };
            assert(all.subrange(0, i + 1).drop_last() =~= all.subrange(0, i as int));
            assert(entry == all[i as int]);
            if entry.0.depth < depth {
                let ghost before = kept@;
                kept.push_back(entry);
                assert(kept@ =~= before.push(entry));
            }
            i = i + 1;
            assert(self.queue@ =~= all.subrange(i as int, n as int));
        }
        assert(all.subrange(0, n as int) =~= all);
        self.queue = kept;
    }
}

/// What running does to the queue under a quota: the front entry is taken
/// and costs one command; the task of a discarded frame is skipped; any
/// other task runs, and a returning one drops the queued entries at its
/// depth or deeper; after a task has run, an overflowed queue ends the run.
/// Gives the queue left, the quota left and the tasks run, in order.
pub open spec fn run_queue(queue: Seq<(CommandFrame, CommandTask)>, quota: nat, overflow: bool)
    -> (Seq<(CommandFrame, CommandTask)>, nat, Seq<CommandTask>)
    decreases quota,
{
    if quota == 0 || queue.len() == 0 {
        (queue, quota, seq![])
    } else {
        let frame = queue[0].0;
        let task = queue[0].1;
        let rest = queue.drop_first();
        if frame.discarded {
            run_queue(rest, (quota - 1) as nat, overflow)
        } else {
            let left = if task.is_returning() { shallower(rest, frame.depth) } else { rest };
            if overflow {
                (left, (quota - 1) as nat, seq![task])
            } else {
                let r = run_queue(left, (quota - 1) as nat, overflow);
                (r.0, r.1, seq![task] + r.2)
            }
        }
    }
}

impl ExecutionContextModel {
    /// Runs queued tasks with the executor until the quota is spent, the
    /// queue is empty, or the queue has overflowed; each outcome is recorded
    /// in order. Gives the tasks that ran.
    pub fn run<F: Fn(&CommandTask) -> CommandOutcome>(&mut self, executor: F) -> (r: Vec<CommandTask>)
        requires
            forall|t: &CommandTask| executor.requires((t,)),
        ensures
            ({
                let s = run_queue(old(self).queue@, old(self).quota as nat, old(self).queue_overflow);
                &&& final(self).queue@ == s.0
                &&& final(self).quota == s.1
                &&& r@ == s.2
            }),
            subsequence(r@, queue_tasks(old(self).queue@)),
            final(self).callbacks@.len() == old(self).callbacks@.len() + r@.len(),
            final(self).callbacks@.subrange(0, old(self).callbacks@.len() as int) == old(self).callbacks@,
            forall|i: int| 0 <= i < r@.len() ==> executor.ensures((&r@[i],), #[trigger] final(self).callbacks@[old(self).callbacks@.len() + i]),
            final(self).current_depth == 0,
            final(self).command_limit == old(self).command_limit,
            final(self).fork_limit == old(self).fork_limit,
            final(self).max_queue_depth == old(self).max_queue_depth,
            final(self).queue_overflow == old(self).queue_overflow,
            final(self).fork_limit_reached == old(self).fork_limit_reached,
            final(self).tracer == old(self).tracer,
    {
        let ghost total = run_queue(self.queue@, self.quota as nat, self.queue_overflow);
        let ghost base = self.callbacks@.len();
        proof {
            lemma_run_executes_queued_in_order(self.queue@, self.quota as nat, self.queue_overflow);
        }
        let mut executed: Vec<CommandTask> = Vec::new();
        while self.quota > 0
            invariant
                forall|t: &CommandTask| executor.requires((t,)),
                run_queue(self.queue@, self.quota as nat, self.queue_overflow).0 == total.0,
                run_queue(self.queue@, self.quota as nat, self.queue_overflow).1 == total.1,
                executed@ + run_queue(self.queue@, self.quota as nat, self.queue_overflow).2 == total.2,
                self.callbacks@.len() == base + executed@.len(),
                self.callbacks@.subrange(0, base as int) == old(self).callbacks@,
                forall|i: int| 0 <= i < executed@.len() ==> executor.ensures((&executed@[i],), #[trigger] self.callbacks@[base + i]),
                self.command_limit == old(self).command_limit,
                self.fork_limit == old(self).fork_limit,
                self.max_queue_depth == old(self).max_queue_depth,
                self.queue_overflow == old(self).queue_overflow,
                self.fork_limit_reached == old(self).fork_limit_reached,
                self.tracer == old(self).tracer,
            decreases self.quota,
        {
            let ghost q = self.queue@;
            let ghost quota = self.quota as nat;
            let entry = match self.queue.pop_front() {
                Some(entry) => entry,
                None => {
                    assert(q.len() == 0);
                    assert(executed@ + seq![] =~= executed@);
                    break;
                },
            };
            let (frame, task) = entry;
            assert(entry == q[0]);
            assert(self.queue@ =~= q.drop_first());
            self.current_depth = frame.depth;
            self.quota = self.quota - 1;
            if frame.discarded {
                continue;
            }
            let outcome = executor(&task);
            let ghost before = self.callbacks@;
            self.callbacks.push(outcome);
            if task.returning() {
                self.discard_at_depth_or_higher(frame.depth);
            }
            let ghost done = executed@;
            executed.push(task);
            proof {
                assert(self.callbacks@.subrange(0, base as int) =~= before.subrange(0, base as int));
                assert forall|i: int| 0 <= i < executed@.len() implies executor.ensures((&executed@[i],), #[trigger] self.callbacks@[base + i]) by {
                    if i < done.len() {
                        assert(executed@[i] == done[i]);
                        assert(self.callbacks@[base + i] == before[base + i]);
                    }
                }
            }
            if self.queue_overflow {
                assert(executed@ =~= done + seq![task]);
                assert(executed@ + seq![] =~= executed@);
                break;
            }
            proof {
                let r = run_queue(self.queue@, self.quota as nat, self.queue_overflow);
                assert(done + (seq![task] + r.2) =~= executed@ + r.2);
            }
        }
        proof {
            if self.quota == 0 {
                assert(executed@ + seq![] =~= executed@);
            }
        }
        self.current_depth = 0;
        executed
    }
}

/// Each task with the frame, in order.
pub open spec fn framed(frame: CommandFrame, tasks: Seq<CommandTask>) -> Seq<(CommandFrame, CommandTask)> {
    tasks.map_values(|t: CommandTask| (frame, t))
}

/// How a continuation's tasks are queued: one or two in order, more in
/// reverse order, each with the frame.
pub open spec fn scheduled(queue: Seq<(CommandFrame, CommandTask)>, overflow: bool, max: usize, frame: CommandFrame, tasks: Seq<CommandTask>)
    -> (Seq<(CommandFrame, CommandTask)>, bool)
{
    if tasks.len() <= 2 {
        pushed_all(queue, overflow, max, framed(frame, tasks))
    } else {
        pushed_all(queue, overflow, max, framed(frame, tasks.reverse()))
    }
}

proof fn lemma_view_pushed(q: Seq<(CommandFrame, CommandTask)>, overflow: bool, max: usize, e: (CommandFrame, CommandTask))
    ensures
        queue_view(pushed(q, overflow, max, e).0) == pushed(queue_view(q), overflow, max, entry_view(e)).0,
        pushed(q, overflow, max, e).1 == pushed(queue_view(q), overflow, max, entry_view(e)).1,
{
    if q.len() <= max && !overflow {
        assert(queue_view(seq![e] + q) =~= seq![entry_view(e)] + queue_view(q));
    } else if q.len() > max {
        assert(queue_view(seq![]) =~= Seq::<(CommandFrame, TaskView)>::empty());
    }
}

/// Queues the tasks with the frame, each to the front, in order.
fn queue_in_order(context: &mut ExecutionContextModel, frame: CommandFrame, tasks: Vec<CommandTask>)
    ensures
        same_but_queue(*old(context), *final(context)),
        (final(context).queue@, final(context).queue_overflow)
            == pushed_all(old(context).queue@, old(context).queue_overflow, old(context).max_queue_depth, framed(frame, tasks@)),
{
    let ghost all = tasks@;
    let n = tasks.len();
    let mut tasks = tasks;
    let mut i: usize = 0;
    while i < n
        invariant
            0 <= i <= n,
            n == all.len(),
            tasks@ == all.subrange(i as int, n as int),
            same_but_queue(*old(context), *context),
            (context.queue@, context.queue_overflow)
                == pushed_all(old(context).queue@, old(context).queue_overflow, old(context).max_queue_depth, framed(frame, all.subrange(0, i as int))),
        decreases n - i,
    {
        let task = tasks.remove(0);
        assert(framed(frame, all.subrange(0, i + 1)).drop_last() =~= framed(frame, all.subrange(0, i as int)));
        assert(framed(frame, all.subrange(0, i + 1)).last() == (frame, task));
        context.queue_next(frame, task);
        i = i + 1;
        assert(tasks@ =~= all.subrange(i as int, n as int));
    }
    assert(all.subrange(0, n as int) =~= all);
}

/// Queues the tasks with the frame, each to the front, last first.
fn queue_reversed(context: &mut ExecutionContextModel, frame: CommandFrame, tasks: Vec<CommandTask>)
    ensures
        same_but_queue(*old(context), *final(context)),
        (final(context).queue@, final(context).queue_overflow)
            == pushed_all(old(context).queue@, old(context).queue_overflow, old(context).max_queue_depth, framed(frame, tasks@.reverse())),
{
    let ghost all = tasks@;
    let n = tasks.len();
    let mut tasks = tasks;
    let mut i: usize = 0;
    while i < n
        invariant
            0 <= i <= n,
            n == all.len(),
            tasks@ == all.subrange(0, n - i),
            same_but_queue(*old(context), *context),
            (context.queue@, context.queue_overflow)
                == pushed_all(old(context).queue@, old(context).queue_overflow, old(context).max_queue_depth, framed(frame, all.reverse().subrange(0, i as int))),
        decreases n - i,
    {
        let task = match tasks.pop() {
            Some(task) => task,
            None => {
                assert(false);
                return;
            },
        };
        assert(task == all[n - i - 1]);
        assert(framed(frame, all.reverse().subrange(0, i + 1)).drop_last() =~= framed(frame, all.reverse().subrange(0, i as int)));
        assert(framed(frame, all.reverse().subrange(0, i + 1)).last() == (frame, task));
        context.queue_next(frame, task);
        i = i + 1;
        assert(tasks@ =~= all.subrange(0, n - i));
    }
    assert(all.reverse().subrange(0, n as int) =~= all.reverse());
}

/// The task that a fork runs for each entity, or for the original source
/// where there is no entity.
pub open spec fn fork_entries(command: Seq<char>, original: Seq<char>, entities: Seq<Option<String>>, returning: bool, depth: usize)
    -> Seq<(CommandFrame, TaskView)>
{
    Seq::new(
        entities.len(),
        |i: int| (
            CommandFrame { depth, return_value: None, discarded: false },
            TaskView::Command(command, match entities[i] { Some(e) => e@, None => original }, returning),
        ),
    )
}

impl ExecutionContextModel {
    /// Queues a command for the source at the current depth.
    pub fn queue_initial_command(&mut self, command: &str, source: &str)
        ensures
            same_but_queue(*old(self), *final(self)),
            (queue_view(final(self).queue@), final(self).queue_overflow) == pushed(
                queue_view(old(self).queue@),
                old(self).queue_overflow,
                old(self).max_queue_depth,
                (current_frame_at(old(self).current_depth), TaskView::Command(command@, source@, false)),
            ),
    {
        let ghost q = self.queue@;
        let task = CommandTask::Command { command: command.to_owned(), source: source.to_owned(), returning: false };
        let frame = current_frame(self.current_depth);
        proof {
            lemma_view_pushed(q, self.queue_overflow, self.max_queue_depth, (frame, task));
        }
        self.queue_next(frame, task);
    }

    /// Queues a function call for the source at the current depth.
    pub fn queue_initial_function(&mut self, id: &str, source: &str)
        ensures
            same_but_queue(*old(self), *final(self)),
            (queue_view(final(self).queue@), final(self).queue_overflow) == pushed(
                queue_view(old(self).queue@),
                old(self).queue_overflow,
                old(self).max_queue_depth,
                (current_frame_at(old(self).current_depth), TaskView::FunctionCall(id@, source@, false)),
            ),
    {
        let ghost q = self.queue@;
        let task = CommandTask::FunctionCall { id: id.to_owned(), source: source.to_owned(), returning: false };
        let frame = current_frame(self.current_depth);
        proof {
            lemma_view_pushed(q, self.queue_overflow, self.max_queue_depth, (frame, task));
        }
        self.queue_next(frame, task);
    }

    /// Continues a command for each of the current sources, one level
    /// deeper: with no source, a returning command falls through; as many
    /// sources as the fork limit or more reach the limit and queue nothing.
    /// A source runs as its entity, or as the original source without one.
    pub fn queue_continuation(&mut self, command: &str, original: &str, entities: &[Option<String>], returning: bool)
        requires
            entities@.len() > 0 && entities@.len() < old(self).fork_limit ==> old(self).current_depth < usize::MAX,
        ensures
            if entities@.len() == 0 {
                if returning {
                    same_but_queue(*old(self), *final(self)) && (queue_view(final(self).queue@), final(self).queue_overflow)
                        == pushed(
                        queue_view(old(self).queue@),
                        old(self).queue_overflow,
                        old(self).max_queue_depth,
                        (current_frame_at(old(self).current_depth), TaskView::Fallthrough),
                    )
                } else {
                    *final(self) == *old(self)
                }
            } else if entities@.len() >= old(self).fork_limit {
                *final(self) == (ExecutionContextModel { fork_limit_reached: true, ..*old(self) })
            } else {
                same_but_queue(*old(self), *final(self)) && (queue_view(final(self).queue@), final(self).queue_overflow)
                    == pushed_all(
                    queue_view(old(self).queue@),
                    old(self).queue_overflow,
                    old(self).max_queue_depth,
                    fork_entries(command@, original@, entities@, returning, (old(self).current_depth + 1) as usize),
                )
            },
    {
        if entities.len() == 0 {
            if returning {
                let ghost q = self.queue@;
                let frame = current_frame(self.current_depth);
                proof {
                    lemma_view_pushed(q, self.queue_overflow, self.max_queue_depth, (frame, CommandTask::Fallthrough));
                }
                self.queue_next(frame, CommandTask::Fallthrough);
            }
            return;
        }
        if entities.len() >= self.fork_limit {
            self.fork_limit_reached = true;
            return;
        }
        let depth = self.current_depth + 1;
        let ghost entries = fork_entries(command@, original@, entities@, returning, depth);
        let mut i: usize = 0;
        while i < entities.len()
            invariant
                0 <= i <= entities@.len(),
                depth == old(self).current_depth + 1,
                same_but_queue(*old(self), *self),
                (queue_view(self.queue@), self.queue_overflow)
                    == pushed_all(queue_view(old(self).queue@), old(self).queue_overflow, old(self).max_queue_depth, entries.subrange(0, i as int)),
            decreases entities@.len() - i,
        {
            let source = match &entities[i] {
                Some(entity) => entity.clone(),
                None => original.to_owned(),
            };
            let task = CommandTask::Command { command: command.to_owned(), source, returning };
            let frame = current_frame(depth);
            let ghost q = self.queue@;
            proof {
                lemma_view_pushed(q, self.queue_overflow, self.max_queue_depth, (frame, task));
                assert(entries.subrange(0, i + 1).drop_last() =~= entries.subrange(0, i as int));
                assert(entries.subrange(0, i + 1).last() == entry_view((frame, task)));
            }
            self.queue_next(frame, task);
            i = i + 1;
        }
        assert(entries.subrange(0, entities@.len() as int) =~= entries);
    }
}

/// A fresh frame at the depth.
pub open spec fn current_frame_at(depth: usize) -> CommandFrame {
    CommandFrame { depth, return_value: None, discarded: false }
}

/// What an entry of the queue does when it is taken.
#[derive(Debug, PartialEq, Eq)]
pub enum EntryActionModel {
    Task(CommandTask),
    Fallthrough,
    Isolated(Vec<CommandTask>),
    CallFunction { id: String, entries: Vec<CommandTask>, return_parent_frame: bool },
}

/// What carrying out an action in a frame does to a context.
pub open spec fn entry_done(action: EntryActionModel, frame: CommandFrame, before: ExecutionContextModel, after: ExecutionContextModel) -> bool {
    match action {
        EntryActionModel::Task(task) => same_but_queue(before, after)
            && (after.queue@, after.queue_overflow)
            == pushed(before.queue@, before.queue_overflow, before.max_queue_depth, (frame, task)),
        EntryActionModel::Fallthrough => after == (ExecutionContextModel {
            queue: after.queue,
            callbacks: after.callbacks,
            ..before
        }) && after.callbacks@ == before.callbacks@.push(CommandOutcome { success: false, result: 0 })
            && after.queue@ == shallower(before.queue@, frame.depth),
        EntryActionModel::Isolated(tasks) => same_but_queue(before, after)
            && (after.queue@, after.queue_overflow) == pushed_all(
            before.queue@,
            before.queue_overflow,
            before.max_queue_depth,
            framed(current_frame_at((frame.depth + 1) as usize), tasks@),
        ),
        EntryActionModel::CallFunction { id, entries, return_parent_frame } => {
            let new_frame = if return_parent_frame {
                CommandFrame { depth: (frame.depth + 1) as usize, ..frame }
            } else {
                current_frame_at((frame.depth + 1) as usize)
            };
            &&& after.quota == if before.quota > 0 { before.quota - 1 } else { 0 }
            &&& traced(before.tracer, after.tracer, EventView::Call(frame.depth, id@, entries@.len() as usize))
            &&& (after.queue@, after.queue_overflow)
                == scheduled(before.queue@, before.queue_overflow, before.max_queue_depth, new_frame, entries@)
            &&& after.command_limit == before.command_limit
            &&& after.fork_limit == before.fork_limit
            &&& after.max_queue_depth == before.max_queue_depth
            &&& after.current_depth == before.current_depth
            &&& after.fork_limit_reached == before.fork_limit_reached
            &&& after.callbacks == before.callbacks
        },
    }
}

pub struct ContinuationTaskModel;

impl ContinuationTaskModel {
    /// Queues a continuation's tasks with the frame: one or two in order,
    /// more in reverse order.
    pub fn schedule(context: &mut ExecutionContextModel, frame: CommandFrame, arguments: Vec<CommandTask>)
        ensures
            same_but_queue(*old(context), *final(context)),
            (final(context).queue@, final(context).queue_overflow)
                == scheduled(old(context).queue@, old(context).queue_overflow, old(context).max_queue_depth, frame, arguments@),
    {
        if arguments.len() <= 2 {
            queue_in_order(context, frame, arguments);
        } else {
            queue_reversed(context, frame, arguments);
        }
    }
}

impl EntryActionModel {
    /// Carries out the action in the frame: a task is queued; a fallthrough
    /// records a failure and drops the queued entries at its depth or
    /// deeper; isolated tasks are queued in order one level deeper in a
    /// fresh frame; a function call costs one command, is traced, and
    /// schedules its entries one level deeper, in the parent's frame when it
    /// returns from it, else in a fresh one.
    pub fn execute(self, context: &mut ExecutionContextModel, frame: CommandFrame)
        requires
            (self is Isolated || self is CallFunction) ==> frame.depth < usize::MAX,
        ensures
            entry_done(self, frame, *old(context), *final(context)),
    {
        match self {
            EntryActionModel::Task(task) => context.queue_next(frame, task),
            EntryActionModel::Fallthrough => {
                let mut frame = frame;
                frame.return_failure();
                frame.discard();
                let outcome = match frame.return_value {
                    Some(outcome) => outcome,
                    None => CommandOutcome { success: false, result: 0 },
                };
                context.callbacks.push(outcome);
                context.discard_at_depth_or_higher(frame.depth);
            },
            EntryActionModel::Isolated(tasks) => {
                let new_frame = current_frame(frame.depth + 1);
                queue_in_order(context, new_frame, tasks);
            },
            EntryActionModel::CallFunction { id, entries, return_parent_frame } => {
                context.increment_cost();
                match context.tracer.take() {
                    Some(mut tracer) => {
                        tracer.on_call(frame.depth, id.as_str(), entries.len());
                        context.tracer = Some(tracer);
                    },
                    None => {},
                }
                let new_depth = frame.depth + 1;
                let new_frame = if return_parent_frame {
                    CommandFrame { depth: new_depth, ..frame }
                } else {
                    current_frame(new_depth)
                };
                ContinuationTaskModel::schedule(context, new_frame, entries);
            },
        }
    }
}

/// An entry of the queue: an action and the frame it runs in.
#[derive(Debug, PartialEq, Eq)]
pub struct CommandQueueEntryModel {
    pub frame: CommandFrame,
    pub action: EntryActionModel,
}

impl CommandQueueEntryModel {
    pub fn new(frame: CommandFrame, action: EntryActionModel) -> (r: Self)
        ensures
            r == (CommandQueueEntryModel { frame, action }),
    {
        CommandQueueEntryModel { frame, action }
    }

    /// Carries out the action in the entry's frame.
    pub fn execute(self, context: &mut ExecutionContextModel)
        requires
            (self.action is Isolated || self.action is CallFunction) ==> self.frame.depth < usize::MAX,
        ensures
            entry_done(self.action, self.frame, *old(context), *final(context)),
    {
        self.action.execute(context, self.frame);
    }
}

/// The control that a running action has: its context and its frame.
pub struct ExecutionControlModel<'a> {
    context: &'a mut ExecutionContextModel,
    frame: CommandFrame,
}

impl<'a> ExecutionControlModel<'a> {
    pub closed spec fn frame_view(&self) -> CommandFrame {
        self.frame
    }

    pub closed spec fn context_view(&self) -> ExecutionContextModel {
        *self.context
    }

    pub fn create(context: &'a mut ExecutionContextModel, frame: CommandFrame) -> (r: Self)
        ensures
            r.frame_view() == frame,
            r.context_view() == *old(context),
    {
        ExecutionControlModel { context, frame }
    }

    /// Carries out an action in the control's frame.
    pub fn queue_next(&mut self, action: EntryActionModel)
        requires
            (action is Isolated || action is CallFunction) ==> old(self).frame_view().depth < usize::MAX,
        ensures
            final(self).frame_view() == old(self).frame_view(),
            entry_done(action, old(self).frame_view(), old(self).context_view(), final(self).context_view()),
    {
        CommandQueueEntryModel::new(self.frame, action).execute(self.context);
    }

    pub fn set_tracer(&mut self, tracer: Option<TraceCallbacksModel>)
        ensures
            final(self).frame_view() == old(self).frame_view(),
            final(self).context_view() == (ExecutionContextModel { tracer, ..old(self).context_view() }),
    {
        self.context.set_tracer(tracer);
    }

    pub fn tracer(&self) -> (r: Option<&TraceCallbacksModel>)
        ensures
            match self.context_view().tracer {
                Some(t) => r == Some(&t),
                None => r is None,
            },
    {
        self.context.tracer()
    }

    pub fn current_frame(&self) -> (r: &CommandFrame)
        ensures
            *r == self.frame_view(),
    {
        &self.frame
    }
}

/// A task not yet bound to the source that runs it.
pub struct UnboundEntryActionModel {
    task: CommandTask,
}

impl UnboundEntryActionModel {
    pub closed spec fn task_view(&self) -> CommandTask {
        self.task
    }

    pub fn new(task: CommandTask) -> (r: Self)
        ensures
            r.task_view() == task,
    {
        UnboundEntryActionModel { task }
    }

    /// The task to run for the sender: the same command or function call,
    /// run as the sender's source.
    pub fn bind(&self, sender_source: &str) -> (r: EntryActionModel)
        ensures
            r matches EntryActionModel::Task(t) && t@ == match self.task_view()@ {
                TaskView::Command(command, _, returning) => TaskView::Command(command, sender_source@, returning),
                TaskView::FunctionCall(id, _, returning) => TaskView::FunctionCall(id, sender_source@, returning),
                TaskView::Fallthrough => TaskView::Fallthrough,
            },
    {
        let task = match &self.task {
            CommandTask::Command { command, returning, .. } => CommandTask::Command {
                command: command.clone(),
                source: sender_source.to_owned(),
                returning: *returning,
            },
            CommandTask::FunctionCall { id, returning, .. } => CommandTask::FunctionCall {
                id: id.clone(),
                source: sender_source.to_owned(),
                returning: *returning,
            },
            CommandTask::Fallthrough => CommandTask::Fallthrough,
        };
        EntryActionModel::Task(task)
    }
}


/// A run spends no more commands than its quota, and runs at most one task
/// for each command it spends.
pub proof fn lemma_run_within_quota(queue: Seq<(CommandFrame, CommandTask)>, quota: nat, overflow: bool)
    ensures
        run_queue(queue, quota, overflow).1 <= quota,
        run_queue(queue, quota, overflow).2.len() <= quota - run_queue(queue, quota, overflow).1,
    decreases quota,
{
    if quota > 0 && queue.len() > 0 {
        let frame = queue[0].0;
        let task = queue[0].1;
        let rest = queue.drop_first();
        if frame.discarded {
            lemma_run_within_quota(rest, (quota - 1) as nat, overflow);
        } else if !overflow {
            let left = if task.is_returning() { shallower(rest, frame.depth) } else { rest };
            lemma_run_within_quota(left, (quota - 1) as nat, overflow);
        }
    }
}

/// The tasks of the queue, in order.
pub open spec fn queue_tasks(queue: Seq<(CommandFrame, CommandTask)>) -> Seq<CommandTask> {
    queue.map_values(|e: (CommandFrame, CommandTask)| e.1)
}

proof fn lemma_shallower_embeds(queue: Seq<(CommandFrame, CommandTask)>, depth: usize) -> (idx: Seq<int>)
    ensures
        embeds(queue_tasks(shallower(queue, depth)), queue_tasks(queue), idx),
    decreases queue.len(),
{
    if queue.len() == 0 {
        assert(queue_tasks(shallower(queue, depth)) =~= Seq::<CommandTask>::empty());
        seq![]
    } else {
        let front = queue.drop_last();
        let prev = lemma_shallower_embeds(front, depth);
        let a = queue_tasks(shallower(front, depth));
        assert forall|i: int| 0 <= i < prev.len() implies 0 <= #[trigger] prev[i] < queue_tasks(queue).len()
            && queue_tasks(queue)[prev[i]] == a[i] by {
            assert(queue_tasks(queue)[prev[i]] == queue_tasks(front)[prev[i]]);
        }
        if queue.last().0.depth < depth {
            let idx = prev.push(queue.len() - 1);
            assert(queue_tasks(shallower(queue, depth)) =~= a.push(queue.last().1));
            assert forall|i: int, j: int| 0 <= i < j < idx.len() implies #[trigger] idx[i] < #[trigger] idx[j] by {
                if j < prev.len() {
                    assert(idx[i] == prev[i] && idx[j] == prev[j]);
                }
            }
            idx
        } else {
            prev
        }
    }
}

proof fn lemma_embeds_compose<T>(a: Seq<T>, b: Seq<T>, c: Seq<T>, f: Seq<int>, g: Seq<int>) -> (h: Seq<int>)
    requires
        embeds(a, b, f),
        embeds(b, c, g),
    ensures
        embeds(a, c, h),
        forall|i: int| 0 <= i < h.len() ==> #[trigger] h[i] == g[f[i]],
{
    let h = f.map_values(|x: int| g[x]);
    assert forall|i: int, j: int| 0 <= i < j < h.len() implies #[trigger] h[i] < #[trigger] h[j] by {
        assert(f[i] < f[j]);
        assert(g[f[i]] < g[f[j]]);
    }
    assert forall|i: int| 0 <= i < h.len() implies 0 <= #[trigger] h[i] < c.len() && c[h[i]] == a[i] by {
        assert(0 <= f[i] < b.len());
    }
    h
}

proof fn lemma_run_embeds(queue: Seq<(CommandFrame, CommandTask)>, quota: nat, overflow: bool) -> (idx: Seq<int>)
    ensures
        embeds(run_queue(queue, quota, overflow).2, queue_tasks(queue), idx),
    decreases quota,
{
    let out = run_queue(queue, quota, overflow).2;
    if quota == 0 || queue.len() == 0 {
        seq![]
    } else {
        let frame = queue[0].0;
        let task = queue[0].1;
        let rest = queue.drop_first();
        let ts = queue_tasks(queue);
        let shift = Seq::new(rest.len(), |i: int| i + 1);
        assert(embeds(queue_tasks(rest), ts, shift)) by {
            assert forall|i: int| 0 <= i < shift.len() implies 0 <= #[trigger] shift[i] < ts.len()
                && ts[shift[i]] == queue_tasks(rest)[i] by {}
        }
        if frame.discarded {
            let inner = lemma_run_embeds(rest, (quota - 1) as nat, overflow);
            lemma_embeds_compose(out, queue_tasks(rest), ts, inner, shift)
        } else if overflow {
            let idx = seq![0int];
            assert(out =~= seq![task]);
            idx
        } else {
            let left = if task.is_returning() { shallower(rest, frame.depth) } else { rest };
            let r = run_queue(left, (quota - 1) as nat, overflow);
            let inner = lemma_run_embeds(left, (quota - 1) as nat, overflow);
            let to_rest = if task.is_returning() {
                lemma_shallower_embeds(rest, frame.depth)
            } else {
                let id = Seq::new(rest.len(), |i: int| i);
                assert(embeds(queue_tasks(rest), queue_tasks(rest), id));
                id
            };
            let g = lemma_embeds_compose(queue_tasks(left), queue_tasks(rest), ts, to_rest, shift);
            let tail = lemma_embeds_compose(r.2, queue_tasks(left), ts, inner, g);
            let idx = seq![0int] + tail;
            assert(out == seq![task] + r.2);
            assert forall|i: int| 0 <= i < idx.len() implies 0 <= #[trigger] idx[i] < ts.len() && ts[idx[i]] == out[i] by {
                if i > 0 {
                    assert(idx[i] == tail[i - 1]);
                }
            }
            assert forall|i: int, j: int| 0 <= i < j < idx.len() implies #[trigger] idx[i] < #[trigger] idx[j] by {
                assert(idx[j] == tail[j - 1]);
                let k = inner[j - 1];
                assert(0 <= k < to_rest.len());
                assert(tail[j - 1] == g[k]);
                assert(g[k] == shift[to_rest[k]]);
                assert(0 <= to_rest[k] < rest.len());
                if i > 0 {
                    assert(idx[i] == tail[i - 1]);
                }
            }
            idx
        }
    }
}

/// The tasks that a run executes are tasks of the queue, in queue order:
/// the queue's tasks with some left out.
pub proof fn lemma_run_executes_queued_in_order(queue: Seq<(CommandFrame, CommandTask)>, quota: nat, overflow: bool)
    ensures
        subsequence(run_queue(queue, quota, overflow).2, queue_tasks(queue)),
{
    let idx = lemma_run_embeds(queue, quota, overflow);
    assert(embeds(run_queue(queue, quota, overflow).2, queue_tasks(queue), idx));
}

/// Dropping the entries at a depth or deeper keeps only shallower entries,
/// never more than there were.
pub proof fn lemma_shallower_only_shallower<E>(queue: Seq<(CommandFrame, E)>, depth: usize)
    ensures
        shallower(queue, depth).len() <= queue.len(),
        forall|i: int| 0 <= i < shallower(queue, depth).len() ==> (#[trigger] shallower(queue, depth)[i]).0.depth < depth,
    decreases queue.len(),
{
    if queue.len() > 0 {
        lemma_shallower_only_shallower(queue.drop_last(), depth);
    }
}

/// Pushing never lets the queue grow past one more than its maximum depth,
/// and an overflowed queue stays overflowed.
pub proof fn lemma_pushed_bounded<E>(queue: Seq<E>, overflow: bool, max: usize, entry: E)
    requires
        queue.len() <= max + 1,
    ensures
        pushed(queue, overflow, max, entry).0.len() <= max + 1,
        overflow ==> pushed(queue, overflow, max, entry).1,
{
}
} // verus!
