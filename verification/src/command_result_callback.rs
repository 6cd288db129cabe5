//! Result callbacks of command execution, and their chaining.

use vstd::prelude::*;

verus! {

#[derive(Debug, PartialEq, Eq)]
pub enum CommandResultCallbackModel {
    Empty,
    Recorder(&'static str),
    Chain(Box<CommandResultCallbackModel>, Box<CommandResultCallbackModel>),
}

#[derive(Debug, Clone, Copy, PartialEq, Eq)]
pub struct CallbackInvocation {
    pub callback: &'static str,
    pub success: bool,
    pub result: i32,
}

/// The invocations that a callback records for one result, in order.
pub open spec fn invocations(cb: CommandResultCallbackModel, success: bool, result: i32) -> Seq<CallbackInvocation>
    decreases cb,
{
    match cb {
        CommandResultCallbackModel::Empty => seq![],
        CommandResultCallbackModel::Recorder(name) => seq![CallbackInvocation { callback: name, success, result }],
        CommandResultCallbackModel::Chain(first, second) => invocations(*first, success, result) + invocations(*second, success, result),
    }
}

/// What `chain` builds: an empty side is dropped.
pub open spec fn chained(first: CommandResultCallbackModel, second: CommandResultCallbackModel) -> CommandResultCallbackModel {
    if first is Empty {
        second
    } else if second is Empty {
        first
    } else {
        CommandResultCallbackModel::Chain(Box::new(first), Box::new(second))
    }
}

impl Clone for CommandResultCallbackModel {
    fn clone(&self) -> (r: Self)
        ensures
            r == *self,
        decreases self,
    {
        match self {
            CommandResultCallbackModel::Empty => CommandResultCallbackModel::Empty,
            CommandResultCallbackModel::Recorder(n) => CommandResultCallbackModel::Recorder(n),
            CommandResultCallbackModel::Chain(a, b) => {
                let x: CommandResultCallbackModel = (**a).clone();
                let y: CommandResultCallbackModel = (**b).clone();
                CommandResultCallbackModel::Chain(Box::new(x), Box::new(y))
            },
        }
    }
}

impl CommandResultCallbackModel {
    pub fn empty() -> (r: Self)
        ensures
            r is Empty,
    {
        CommandResultCallbackModel::Empty
    }

    pub fn recorder(name: &'static str) -> (r: Self)
        ensures
            r == CommandResultCallbackModel::Recorder(name),
    {
        CommandResultCallbackModel::Recorder(name)
    }

    /// Runs `first` then `second`; an empty side is dropped.
    pub fn chain(first: Self, second: Self) -> (r: Self)
        ensures
            r == chained(first, second),
    {
        if matches!(first, CommandResultCallbackModel::Empty) {
            second
        } else if matches!(second, CommandResultCallbackModel::Empty) {
            first
        } else {
            CommandResultCallbackModel::Chain(Box::new(first), Box::new(second))
        }
    }

    pub fn on_result(&self, success: bool, result: i32, log: &mut Vec<CallbackInvocation>)
        ensures
            final(log)@ == old(log)@ + invocations(*self, success, result),
        decreases self,
    {
        match self {
            CommandResultCallbackModel::Empty => {
                assert(old(log)@ + invocations(*self, success, result) =~= old(log)@);
            },
            CommandResultCallbackModel::Recorder(name) => {
                log.push(CallbackInvocation { callback: name, success, result });
                assert(final(log)@ =~= old(log)@ + invocations(*self, success, result));
            },
            CommandResultCallbackModel::Chain(first, second) => {
                first.on_result(success, result, log);
                second.on_result(success, result, log);
                assert(final(log)@ =~= old(log)@ + invocations(*self, success, result));
            },
        }
    }

    pub fn on_success(&self, result: i32, log: &mut Vec<CallbackInvocation>)
        ensures
            final(log)@ == old(log)@ + invocations(*self, true, result),
    {
        self.on_result(true, result, log);
    }

    pub fn on_failure(&self, log: &mut Vec<CallbackInvocation>)
        ensures
            final(log)@ == old(log)@ + invocations(*self, false, 0),
    {
        self.on_result(false, 0, log);
    }

    /// `<empty>` for the empty callback; other callbacks have no fixed text.
    pub fn java_to_string(&self) -> (r: Option<&'static str>)
        ensures
            self is Empty ==> (r matches Some(s) && s@ == "<empty>"@),
            !(self is Empty) ==> r is None,
    {
        match self {
            CommandResultCallbackModel::Empty => Some("<empty>"),
            _ => None,
        }
    }
}

/// Chaining two callbacks records what the first records, then what the second records.
pub proof fn lemma_chain_invokes_in_order(first: CommandResultCallbackModel, second: CommandResultCallbackModel, success: bool, result: i32)
    ensures
        invocations(chained(first, second), success, result) == invocations(first, success, result) + invocations(second, success, result),
{
    if first is Empty {
        assert(invocations(first, success, result) + invocations(second, success, result) =~= invocations(second, success, result));
    } else if second is Empty {
        assert(invocations(first, success, result) + invocations(second, success, result) =~= invocations(first, success, result));
    }
}

/// The empty callback records nothing.
pub proof fn lemma_empty_records_nothing(success: bool, result: i32)
    ensures
        invocations(CommandResultCallbackModel::Empty, success, result) == Seq::<CallbackInvocation>::empty(),
{
}

} // verus!
