use lib::command_result_callback::{CommandResultCallbackModel, CallbackInvocation};
fn invocation(callback: &'static str, success: bool, result: i32) -> CallbackInvocation {
    CallbackInvocation {
        callback,
        success,
        result,
    }
}

#[test]
fn empty_callback_ignores_results_and_prints_empty() {
    let callback = CommandResultCallbackModel::empty();
    let mut log = Vec::new();

    callback.on_result(true, 12, &mut log);

    assert!(log.is_empty());
    assert_eq!(callback.java_to_string(), Some("<empty>"));
}

#[test]
fn on_success_forwards_true_with_supplied_result() {
    let callback = CommandResultCallbackModel::recorder("store_result");
    let mut log = Vec::new();

    callback.on_success(7, &mut log);

    assert_eq!(log, [invocation("store_result", true, 7)]);
}

#[test]
fn on_failure_forwards_false_with_zero_result() {
    let callback = CommandResultCallbackModel::recorder("store_success");
    let mut log = Vec::new();

    callback.on_failure(&mut log);

    assert_eq!(log, [invocation("store_success", false, 0)]);
}

#[test]
fn chain_returns_second_callback_when_first_is_empty() {
    let second = CommandResultCallbackModel::recorder("second");
    let chained =
        CommandResultCallbackModel::chain(CommandResultCallbackModel::empty(), second.clone());

    assert_eq!(chained, second);
}

#[test]
fn chain_returns_first_callback_when_second_is_empty() {
    let first = CommandResultCallbackModel::recorder("first");
    let chained =
        CommandResultCallbackModel::chain(first.clone(), CommandResultCallbackModel::empty());

    assert_eq!(chained, first);
}

#[test]
fn chain_invokes_non_empty_callbacks_in_first_then_second_order() {
    let chained = CommandResultCallbackModel::chain(
        CommandResultCallbackModel::recorder("first"),
        CommandResultCallbackModel::recorder("second"),
    );
    let mut log = Vec::new();

    chained.on_result(true, 3, &mut log);

    assert_eq!(
        log,
        [invocation("first", true, 3), invocation("second", true, 3),]
    );
}
