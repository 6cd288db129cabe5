use lib::command_execution::{ChainModifiersModel, CommandFrame, CommandOutcome, CommandQueueEntryModel, CommandTask, EntryActionModel, ExecutionContextModel, ExecutionControlModel, ResultCallback, TraceCallbacksModel, TraceEventModel, UnboundEntryActionModel, current_frame, propagate_results, run_guarded_custom_command};

#[test]
fn chain_modifiers_frame_trace_and_queue_entry_match_execution_records() {
    let modifiers = ChainModifiersModel::default().set_forked().set_return();
    assert!(modifiers.is_forked());
    assert!(modifiers.is_return());
    assert_eq!(modifiers.flags(), 3);
    assert_eq!(modifiers.set_return(), modifiers);

    let mut frame = current_frame(2);
    frame.return_success(7);
    assert_eq!(
        frame.return_value,
        Some(CommandOutcome {
            success: true,
            result: 7
        })
    );
    frame.discard();
    assert!(frame.discarded);

    let mut tracer = TraceCallbacksModel::default();
    tracer.on_command(1, "say hi");
    tracer.on_return(1, "say hi", 1);
    tracer.on_error("bad command");
    tracer.on_call(2, "minecraft:tick", 3);
    tracer.close();
    assert_eq!(
        tracer.events,
        vec![
            TraceEventModel::Command {
                depth: 1,
                command: "say hi".to_string()
            },
            TraceEventModel::Return {
                depth: 1,
                command: "say hi".to_string(),
                result: 1
            },
            TraceEventModel::Error("bad command".to_string()),
            TraceEventModel::Call {
                depth: 2,
                function: "minecraft:tick".to_string(),
                size: 3
            },
            TraceEventModel::Closed
        ]
    );

    let mut context = ExecutionContextModel::new(10, 8);
    CommandQueueEntryModel::new(
        current_frame(0),
        EntryActionModel::Task(CommandTask::Command {
            command: "say queued".to_string(),
            source: "server".to_string(),
            returning: false,
        }),
    )
    .execute(&mut context);
    assert_eq!(context.queue.len(), 1);

    context.set_tracer(Some(TraceCallbacksModel::default()));
    context.close();
    assert_eq!(
        context.tracer.as_ref().unwrap().events,
        vec![TraceEventModel::Closed]
    );
}

#[test]
fn execution_control_unbound_action_and_isolated_call_bind_like_java_interfaces() {
    let source = "Alex";
    let mut context = ExecutionContextModel::new(10, 8);
    let frame = current_frame(3);
    let mut control = ExecutionControlModel::create(&mut context, frame.clone());
    control.set_tracer(Some(TraceCallbacksModel::default()));
    assert_eq!(control.current_frame(), &frame);
    assert!(control.tracer().is_some());
    control.queue_next(EntryActionModel::Task(CommandTask::Command {
        command: "say control".to_string(),
        source: "server".to_string(),
        returning: false,
    }));
    assert_eq!(context.queue.len(), 1);

    let unbound = UnboundEntryActionModel::new(CommandTask::Command {
        command: "say bound".to_string(),
        source: "old".to_string(),
        returning: false,
    });
    let action = unbound.bind(source);
    let mut bound_context = ExecutionContextModel::new(10, 8);
    action.execute(&mut bound_context, current_frame(0));
    assert!(matches!(
        bound_context.queue.front().unwrap().1,
        CommandTask::Command { ref source, .. } if source == "Alex"
    ));

    EntryActionModel::Isolated(vec![CommandTask::Command {
        command: "say isolated".to_string(),
        source: "server".to_string(),
        returning: false,
    }])
    .execute(&mut bound_context, current_frame(1));
    assert!(bound_context.queue.iter().any(|(frame, task)| {
        frame.depth == 2
            && matches!(
                task,
                CommandTask::Command { command, .. } if command == "say isolated"
            )
    }));
}

#[test]
fn fallthrough_call_function_and_continuation_tasks_match_java_scheduling() {
    let mut context = ExecutionContextModel::new(10, 8);
    context.set_tracer(Some(TraceCallbacksModel::default()));
    EntryActionModel::CallFunction {
        id: "minecraft:tick".to_string(),
        entries: vec![
            CommandTask::Command {
                command: "say one".to_string(),
                source: "server".to_string(),
                returning: false,
            },
            CommandTask::Command {
                command: "say two".to_string(),
                source: "server".to_string(),
                returning: false,
            },
            CommandTask::Command {
                command: "say three".to_string(),
                source: "server".to_string(),
                returning: false,
            },
        ],
        return_parent_frame: false,
    }
    .execute(&mut context, current_frame(0));
    assert_eq!(context.quota, 9);
    assert_eq!(context.queue.len(), 3);
    assert!(context.queue.iter().all(|(frame, _)| frame.depth == 1));
    assert_eq!(
        context.tracer.as_ref().unwrap().events,
        vec![TraceEventModel::Call {
            depth: 0,
            function: "minecraft:tick".to_string(),
            size: 3
        }]
    );

    let mut fallthrough = ExecutionContextModel::new(10, 8);
    fallthrough.queue_next(
        CommandFrame {
            depth: 2,
            return_value: None,
            discarded: false,
        },
        CommandTask::Command {
            command: "say skipped".to_string(),
            source: "server".to_string(),
            returning: false,
        },
    );
    EntryActionModel::Fallthrough.execute(&mut fallthrough, current_frame(2));
    assert_eq!(
        fallthrough.callbacks,
        vec![CommandOutcome {
            success: false,
            result: 0
        }]
    );
    assert!(fallthrough.queue.is_empty());
}

#[test]
fn custom_command_error_handling_traces_errors_and_fires_failure_callback() {
    let mut callbacks = Vec::new();
    let mut tracer = TraceCallbacksModel::default();
    assert_eq!(
        run_guarded_custom_command(
            &mut callbacks,
            Some(&mut tracer),
            ChainModifiersModel::default(),
            Ok(CommandOutcome {
                success: true,
                result: 4
            })
        ),
        Some(CommandOutcome {
            success: true,
            result: 4
        })
    );
    assert_eq!(
        run_guarded_custom_command(
            &mut callbacks,
            Some(&mut tracer),
            ChainModifiersModel::default().set_forked(),
            Err("syntax")
        ),
        None
    );
    assert_eq!(
        callbacks,
        vec![
            CommandOutcome {
                success: true,
                result: 4
            },
            CommandOutcome {
                success: false,
                result: 0
            }
        ]
    );
    assert_eq!(
        tracer.events,
        vec![TraceEventModel::Error("syntax forked".to_string())]
    );
}



#[test]
fn execution_context_runs_commands_with_quota_and_result_callbacks() {
    let source = "server";
    let mut context = ExecutionContextModel::new(2, 8);
    context.queue_initial_command("say first", source);
    context.queue_initial_command("say second", source);
    context.queue_initial_command("say third", source);
    let executed = context.run(|task| CommandOutcome {
        success: matches!(task, CommandTask::Command { .. }),
        result: 1,
    });
    assert_eq!(executed.len(), 2);
    assert_eq!(context.quota, 0);
    assert_eq!(context.callbacks.len(), 2);
    assert_eq!(
        propagate_results(
            &[ResultCallback::StoreSuccess],
            CommandOutcome {
                success: true,
                result: 5
            }
        ),
        vec![CommandOutcome {
            success: true,
            result: 5
        }]
    );
}

#[test]
fn return_value_discards_same_depth_continuations() {
    let source = "server";
    let mut context = ExecutionContextModel::new(10, 8);
    context.queue_next(
        CommandFrame {
            depth: 1,
            return_value: None,
            discarded: false,
        },
        CommandTask::Command {
            command: "say skipped".to_string(),
            source: source.to_string(),
            returning: false,
        },
    );
    context.queue_next(
        CommandFrame {
            depth: 1,
            return_value: None,
            discarded: false,
        },
        CommandTask::Command {
            command: "return 7".to_string(),
            source: source.to_string(),
            returning: true,
        },
    );
    let executed = context.run(|task| CommandOutcome {
        success: true,
        result: if matches!(
            task,
            CommandTask::Command {
                returning: true,
                ..
            }
        ) {
            7
        } else {
            1
        },
    });
    assert_eq!(executed.len(), 1);
    assert!(matches!(
        executed[0],
        CommandTask::Command {
            returning: true,
            ..
        }
    ));
    assert!(context.queue.is_empty());
    assert_eq!(
        context.callbacks[0],
        CommandOutcome {
            success: true,
            result: 7
        }
    );
}

#[test]
fn function_continuations_fork_with_limit_and_fallthrough_when_returning_empty() {
    let source = "server";
    let sources = vec![Some("a".to_string())];
    let mut context = ExecutionContextModel::new(10, 2);
    context.queue_initial_function("minecraft:tick", source);
    context.queue_continuation("say hi", source, &sources, false);
    assert_eq!(context.queue.len(), 2);
    let executed = context.run(|_| CommandOutcome {
        success: true,
        result: 1,
    });
    assert_eq!(executed.len(), 2);
    assert!(executed.iter().any(|task| matches!(
        task,
        CommandTask::FunctionCall {
            id,
            returning: false,
            ..
        } if id == "minecraft:tick"
    )));
    assert!(!context.fork_limit_reached);

    let mut empty_returning = ExecutionContextModel::new(10, 2);
    empty_returning.queue_continuation("say no targets", source, &[], true);
    assert_eq!(empty_returning.queue.len(), 1);
    assert!(matches!(
        empty_returning.queue.front().unwrap().1,
        CommandTask::Fallthrough
    ));
}

#[test]
fn execution_context_matches_vanilla_fork_limit_and_queue_overflow_boundary() {
    let source = "server";
    let sources = vec![Some("a".to_string()), Some("b".to_string()), Some("c".to_string()), Some("d".to_string())];
    let mut context = ExecutionContextModel::new(10, 3);
    context.queue_continuation("say fork", source, &sources, false);
    assert!(context.queue.is_empty());
    assert!(context.fork_limit_reached);

    let allowed_sources = vec![Some("a".to_string()), Some("b".to_string())];
    let mut allowed = ExecutionContextModel::new(10, 3);
    allowed.queue_continuation("say fork", source, &allowed_sources, false);
    assert_eq!(allowed.queue.len(), 2);
    assert!(!allowed.fork_limit_reached);
    assert!(allowed.queue.iter().all(|(_, task)| matches!(
        task,
        CommandTask::Command {
            command,
            returning: false,
            ..
        } if command == "say fork"
    )));

    let mut overflow = ExecutionContextModel::new(10, 8).with_max_queue_depth(2);
    overflow.queue_initial_command("say one", source);
    overflow.queue_initial_command("say two", source);
    overflow.queue_initial_command("say three", source);
    assert_eq!(overflow.queue.len(), 3);
    assert!(!overflow.queue_overflow);
    overflow.queue_initial_command("say four", source);
    assert!(overflow.queue.is_empty());
    assert!(overflow.queue_overflow);
}
