use lib::command_execution_source::{ExecutionCommandSourceModel, CommandResultCallbackModel, CommandContextModel, CommandSyntaxExceptionModel, TraceCallbacksModel, HandledErrorModel, ResultInvocationModel, result_consumer};
#[test]
fn clear_callbacks_replaces_current_callback_with_empty() {
    let source = ExecutionCommandSourceModel::new(
        CommandResultCallbackModel::Recorder("store"),
        "dispatcher",
        false,
    );

    assert_eq!(
        source.clear_callbacks().callback(),
        &CommandResultCallbackModel::Empty
    );
}

#[test]
fn dispatcher_and_silent_delegate_to_implementation_state() {
    let source =
        ExecutionCommandSourceModel::new(CommandResultCallbackModel::Empty, "root", true);

    assert_eq!(source.dispatcher(), "root");
    assert!(source.is_silent());
}

#[test]
fn syntax_error_default_delegates_type_and_raw_message_to_handle_error() {
    let mut source =
        ExecutionCommandSourceModel::new(CommandResultCallbackModel::Empty, "root", false);
    let mut tracer = TraceCallbacksModel { errors: Vec::new() };

    source.handle_syntax_error(
        CommandSyntaxExceptionModel {
            error_type: "dispatcherUnknownCommand",
            raw_message: "Unknown command",
        },
        false,
        Some(&mut tracer),
    );

    assert_eq!(
        source.handled_errors(),
        [HandledErrorModel {
            error_type: "dispatcherUnknownCommand",
            message: "Unknown command",
            forked: false,
        }]
    );
    assert_eq!(tracer.errors, ["Unknown command"]);
}

#[test]
fn result_consumer_invokes_source_callback_with_success_and_result() {
    let context = CommandContextModel {
        source: ExecutionCommandSourceModel::new(
            CommandResultCallbackModel::Recorder("callback"),
            "dispatcher",
            false,
        ),
    };

    assert_eq!(
        result_consumer(&context, true, 42),
        [ResultInvocationModel {
            callback: "callback",
            success: true,
            result: 42,
        }]
    );
}

#[test]
fn result_consumer_uses_empty_callback_as_no_op() {
    let context = CommandContextModel {
        source: ExecutionCommandSourceModel::new(
            CommandResultCallbackModel::Empty,
            "dispatcher",
            false,
        ),
    };

    assert!(result_consumer(&context, false, 0).is_empty());
}
