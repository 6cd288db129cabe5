//! The parts of a command source that command execution uses: its result
//! callback, its dispatcher, silence, and error handling.

use vstd::prelude::*;

verus! {

#[derive(Debug, Clone, PartialEq, Eq)]
pub enum CommandResultCallbackModel {
    Empty,
    Recorder(&'static str),
}

#[derive(Debug, Clone, Copy, PartialEq, Eq)]
pub struct HandledErrorModel {
    pub error_type: &'static str,
    pub message: &'static str,
    pub forked: bool,
}

#[derive(Debug, Clone, Copy, PartialEq, Eq)]
pub struct ResultInvocationModel {
    pub callback: &'static str,
    pub success: bool,
    pub result: i32,
}

#[derive(Debug, Clone, Copy, PartialEq, Eq)]
pub struct CommandSyntaxExceptionModel {
    pub error_type: &'static str,
    pub raw_message: &'static str,
}

#[derive(Debug, Clone, PartialEq, Eq)]
pub struct TraceCallbacksModel {
    pub errors: Vec<String>,
}

#[derive(Debug, PartialEq, Eq)]
pub struct ExecutionCommandSourceModel {
    callback: CommandResultCallbackModel,
    dispatcher: &'static str,
    silent: bool,
    handled_errors: Vec<HandledErrorModel>,
}

#[derive(Debug, PartialEq, Eq)]
pub struct CommandContextModel {
    pub source: ExecutionCommandSourceModel,
}

impl CommandResultCallbackModel {
    pub open spec fn invocations(self, success: bool, result: i32) -> Seq<ResultInvocationModel> {
        match self {
            CommandResultCallbackModel::Empty => seq![],
            CommandResultCallbackModel::Recorder(name) => seq![ResultInvocationModel { callback: name, success, result }],
        }
    }

    fn copy(&self) -> (r: Self)
        ensures
            r == *self,
    {
        match self {
            CommandResultCallbackModel::Empty => CommandResultCallbackModel::Empty,
            CommandResultCallbackModel::Recorder(n) => CommandResultCallbackModel::Recorder(n),
        }
    }

    fn on_result(&self, success: bool, result: i32, log: &mut Vec<ResultInvocationModel>)
        ensures
            final(log)@ == old(log)@ + self.invocations(success, result),
    {
        match self {
            CommandResultCallbackModel::Empty => {
                assert(old(log)@ + self.invocations(success, result) =~= old(log)@);
            },
            CommandResultCallbackModel::Recorder(name) => {
                log.push(ResultInvocationModel { callback: name, success, result });
                assert(final(log)@ =~= old(log)@ + self.invocations(success, result));
            },
        }
    }
}

impl ExecutionCommandSourceModel {
    pub closed spec fn callback_view(&self) -> CommandResultCallbackModel {
        self.callback
    }

    pub closed spec fn dispatcher_view(&self) -> &'static str {
        self.dispatcher
    }

    pub closed spec fn silent_view(&self) -> bool {
        self.silent
    }

    pub closed spec fn errors_view(&self) -> Seq<HandledErrorModel> {
        self.handled_errors@
    }

    pub fn new(callback: CommandResultCallbackModel, dispatcher: &'static str, silent: bool) -> (r: Self)
        ensures
            r.callback_view() == callback,
            r.dispatcher_view() == dispatcher,
            r.silent_view() == silent,
            r.errors_view() == Seq::<HandledErrorModel>::empty(),
    {
        ExecutionCommandSourceModel { callback, dispatcher, silent, handled_errors: Vec::new() }
    }

    /// A copy of this source with another callback.
    pub fn with_callback(&self, callback: CommandResultCallbackModel) -> (r: Self)
        ensures
            r.callback_view() == callback,
            r.dispatcher_view() == self.dispatcher_view(),
            r.silent_view() == self.silent_view(),
            r.errors_view() == self.errors_view(),
    {
        let mut errors: Vec<HandledErrorModel> = Vec::new();
        let mut i: usize = 0;
        while i < self.handled_errors.len()
            invariant
                0 <= i <= self.handled_errors@.len(),
                errors@ == self.handled_errors@.subrange(0, i as int),
            decreases self.handled_errors@.len() - i,
        {
            errors.push(self.handled_errors[i]);
            i = i + 1;
            assert(errors@ =~= self.handled_errors@.subrange(0, i as int));
        }
        assert(self.handled_errors@.subrange(0, self.handled_errors@.len() as int) =~= self.handled_errors@);
        ExecutionCommandSourceModel { callback, dispatcher: self.dispatcher, silent: self.silent, handled_errors: errors }
    }

    pub fn callback(&self) -> (r: &CommandResultCallbackModel)
        ensures
            *r == self.callback_view(),
    {
        &self.callback
    }

    /// A copy of this source whose callback is empty.
    pub fn clear_callbacks(&self) -> (r: Self)
        ensures
            r.callback_view() == CommandResultCallbackModel::Empty,
            r.dispatcher_view() == self.dispatcher_view(),
            r.silent_view() == self.silent_view(),
            r.errors_view() == self.errors_view(),
    {
        self.with_callback(CommandResultCallbackModel::Empty)
    }

    pub fn dispatcher(&self) -> (r: &'static str)
        ensures
            r == self.dispatcher_view(),
    {
        self.dispatcher
    }

    /// Records the error, and its message in the tracer when one is given.
    pub fn handle_error(&mut self, error_type: &'static str, message: &'static str, forked: bool, tracer: Option<&mut TraceCallbacksModel>)
        ensures
            final(self).callback_view() == old(self).callback_view(),
            final(self).dispatcher_view() == old(self).dispatcher_view(),
            final(self).silent_view() == old(self).silent_view(),
            final(self).errors_view() == old(self).errors_view().push(HandledErrorModel { error_type, message, forked }),
    {
        if let Some(t) = tracer {
            t.errors.push(message.to_owned());
        }
        self.handled_errors.push(HandledErrorModel { error_type, message, forked });
    }

    /// Handles a syntax error as an error of its type with its raw message.
    pub fn handle_syntax_error(&mut self, error: CommandSyntaxExceptionModel, forked: bool, tracer: Option<&mut TraceCallbacksModel>)
        ensures
            final(self).callback_view() == old(self).callback_view(),
            final(self).dispatcher_view() == old(self).dispatcher_view(),
            final(self).silent_view() == old(self).silent_view(),
            final(self).errors_view() == old(self).errors_view().push(
                HandledErrorModel { error_type: error.error_type, message: error.raw_message, forked }),
    {
        self.handle_error(error.error_type, error.raw_message, forked, tracer);
    }

    pub fn is_silent(&self) -> (r: bool)
        ensures
            r == self.silent_view(),
    {
        self.silent
    }

    pub fn handled_errors(&self) -> (r: &[HandledErrorModel])
        ensures
            r@ == self.errors_view(),
    {
        self.handled_errors.as_slice()
    }
}

/// The invocations that the context's source callback records for a result.
pub fn result_consumer(context: &CommandContextModel, success: bool, result: i32) -> (r: Vec<ResultInvocationModel>)
    ensures
        r@ == context.source.callback_view().invocations(success, result),
{
    let mut log: Vec<ResultInvocationModel> = Vec::new();
    context.source.callback().on_result(success, result, &mut log);
    assert(log@ =~= context.source.callback_view().invocations(success, result));
    log
}

} // verus!
