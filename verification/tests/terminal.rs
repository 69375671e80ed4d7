use zed_web::terminal::{
    exit_code_without_signals, exit_status_from_remote, MessageList, PtyEvent, RemotePtyHandle,
    RemotePtyTransport, RemoteTerminalOptions, ScrollLimits, Terminal, TerminalAction, TerminalMode,
    TerminalType, TransportMessage, WebSyncHandler, REMOTE_ACK_THRESHOLD,
};

type Remote = Terminal<MessageList, &'static str, u8, ()>;

const LIMITS: ScrollLimits = ScrollLimits { default_lines: 10_000, max_lines: 100_000 };

fn options(mode: TerminalMode<&'static str, u8>) -> RemoteTerminalOptions<&'static str, u8, ()> {
    RemoteTerminalOptions {
        working_directory: Some("/workspaces/project".into()),
        mode,
        template: (),
        max_scroll_history_lines: None,
        title_override: Some("host — Terminal".into()),
        activation_script: Vec::new(),
        clear_screen_command: "clear".into(),
    }
}

fn remote(mode: TerminalMode<&'static str, u8>) -> Remote {
    Terminal::new_remote(options(mode), MessageList::new(7), LIMITS, 80, 24)
}

fn shell() -> Remote {
    remote(TerminalMode::Interactive)
}

fn messages(terminal: &Remote) -> &Vec<TransportMessage> {
    match &terminal.terminal_type {
        TerminalType::Remote(state) => &state.transport.messages,
        TerminalType::Local => panic!("not remote"),
    }
}

fn acks(terminal: &Remote) -> Vec<u64> {
    messages(terminal)
        .iter()
        .filter_map(|message| match message {
            TransportMessage::Ack { offset } => Some(*offset),
            _ => None,
        })
        .collect()
}

fn resyncs(terminal: &Remote) -> Vec<u64> {
    messages(terminal)
        .iter()
        .filter_map(|message| match message {
            TransportMessage::Resync { from_offset, .. } => Some(*from_offset),
            _ => None,
        })
        .collect()
}

/// Applies actions to a grid that keeps every byte.
fn apply(grid: &mut Vec<u8>, actions: Vec<TerminalAction>) -> usize {
    let mut wakeups = 0;
    for action in actions {
        match action {
            TerminalAction::ResetGrid => grid.clear(),
            TerminalAction::Feed(data) => grid.extend(data),
            TerminalAction::Wakeup => wakeups += 1,
            _ => {}
        }
    }
    wakeups
}

#[test]
fn lone_chunk_repaints() {
    let mut terminal = shell();
    let mut grid = Vec::new();
    let actions = terminal.process_remote_output(0, b"hello\r\n".to_vec(), false);
    assert_eq!(apply(&mut grid, actions), 1);
    terminal.flush_remote_ack();
    assert_eq!(grid, b"hello\r\n");
    assert_eq!(acks(&terminal), vec![7]);
    assert_eq!(terminal.remote_next_offset(), Some(7));
    terminal.flush_remote_ack();
    assert_eq!(acks(&terminal), vec![7], "nothing new to report");
}

#[test]
fn duplicate_prefix_is_dropped() {
    let mut terminal = shell();
    let mut grid = Vec::new();
    for (offset, data) in [(0, "abc"), (1, "bcdef"), (0, "abc")] {
        let actions = terminal.process_remote_output(offset, data.as_bytes().to_vec(), false);
        apply(&mut grid, actions);
        terminal.flush_remote_ack();
    }
    assert_eq!(grid, b"abcdef");
    assert_eq!(terminal.remote_next_offset(), Some(6));
    assert_eq!(acks(&terminal), vec![3, 6]);
}

#[test]
fn reset_clears_grid() {
    let mut terminal = shell();
    let mut grid = Vec::new();
    let actions = terminal.process_remote_output(0, b"old".to_vec(), false);
    apply(&mut grid, actions);
    let actions = terminal.process_remote_output(100, b"new".to_vec(), true);
    apply(&mut grid, actions);
    assert_eq!(grid, b"new");
    assert_eq!(terminal.remote_next_offset(), Some(103));
    // A reset without bytes still has to be painted.
    let actions = terminal.process_remote_output(200, Vec::new(), true);
    assert_eq!(apply(&mut grid, actions), 1);
    assert!(grid.is_empty());
    assert_eq!(terminal.remote_next_offset(), Some(200));
}

#[test]
fn gap_requests_resync_without_clearing() {
    let mut terminal = shell();
    let mut grid = Vec::new();
    let mut push = |terminal: &mut Remote, offset: u64, data: &str| {
        let actions = terminal.process_remote_output(offset, data.as_bytes().to_vec(), false);
        apply(&mut grid, actions);
        grid.clone()
    };
    push(&mut terminal, 0, "abc");
    assert_eq!(push(&mut terminal, 10, "xyz"), b"abc");
    assert_eq!(resyncs(&terminal), vec![3]);
    assert_eq!(terminal.remote_next_offset(), Some(3));
    // A second gap chunk does not ask again.
    push(&mut terminal, 20, "q");
    assert_eq!(resyncs(&terminal), vec![3]);
    // The replay lands, and a later gap asks again.
    assert_eq!(push(&mut terminal, 3, "def"), b"abcdef");
    push(&mut terminal, 40, "!");
    assert_eq!(resyncs(&terminal), vec![3, 6]);
    match messages(&terminal).last() {
        Some(TransportMessage::Resync { cols: 80, rows: 24, .. }) => {}
        other => panic!("unexpected message {other:?}"),
    }
}

#[test]
fn crlf_is_not_inserted() {
    let mut terminal = shell();
    let mut grid = Vec::new();
    let actions = terminal.process_remote_output(0, b"a\nb".to_vec(), false);
    apply(&mut grid, actions);
    assert_eq!(grid, b"a\nb");
}

#[test]
fn ack_flushes_at_batch_end_and_threshold() {
    let mut terminal = shell();
    let chunk = vec![b'.'; 30 * 1024];
    for index in 0..3u64 {
        terminal.process_remote_output(index * chunk.len() as u64, chunk.clone(), false);
    }
    assert_eq!(acks(&terminal), vec![90 * 1024]);
    terminal.process_remote_output(90 * 1024, vec![b'.'; 70 * 1024], false);
    assert_eq!(acks(&terminal), vec![90 * 1024, 160 * 1024]);
    terminal.process_remote_output(160 * 1024, vec![b'.'], false);
    assert_eq!(acks(&terminal).len(), 2);
    terminal.flush_remote_ack();
    assert_eq!(acks(&terminal).last(), Some(&(160 * 1024 + 1)));
    assert_eq!(REMOTE_ACK_THRESHOLD, 64 * 1024);
}

#[test]
fn signal_exit_is_reported() {
    assert_eq!(exit_status_from_remote(None, Some(15)), 15);
    assert_eq!(exit_status_from_remote(Some(2), None), 0x200);
    assert_eq!(exit_status_from_remote(None, None), 0x100, "an unknown end is a failure");
    assert_eq!(exit_code_without_signals(Some(2), None), 2);
    assert_eq!(exit_code_without_signals(None, Some(15)), 143);
    assert_eq!(exit_code_without_signals(None, None), 1);
    assert_eq!(exit_code_without_signals(Some(-1), None), u32::MAX);
    assert_eq!(exit_code_without_signals(None, Some(-129)), u32::MAX);
    assert_eq!(exit_code_without_signals(None, Some(i32::MIN)), 0x8000_0080);
}

#[test]
fn lost_marks_detached_and_finishes() {
    let mut terminal = remote(TerminalMode::Task { state: "t", completion: 1 });
    assert_eq!(terminal.scrolling_history, 100_000);
    let mut grid = Vec::new();
    let actions = terminal.process_remote_lost();
    assert!(matches!(actions[1], TerminalAction::FinishTask));
    apply(&mut grid, actions);
    assert_eq!(grid, b"\r\n[remote terminal is no longer available]\r\n");
    terminal.write_to_pty(b"ls\r".to_vec());
    assert!(messages(&terminal).is_empty(), "a lost terminal gets no input");
    assert!(terminal.process_remote_lost().is_empty());
}

#[test]
fn lost_interactive_shell_keeps_tab_until_input_was_sent() {
    let closes = |actions: &Vec<TerminalAction>| {
        actions.iter().filter(|action| matches!(action, TerminalAction::CloseTerminal)).count()
    };
    let mut terminal = shell();
    let actions = terminal.process_remote_lost();
    assert_eq!(closes(&actions), 0);
    assert!(matches!(actions.last(), Some(TerminalAction::Wakeup)));
    let mut terminal = shell();
    terminal.keyboard_input_sent = true;
    assert_eq!(closes(&terminal.process_remote_lost()), 1);
}

#[test]
fn forget_remote_transport_sends_no_close() {
    let mut terminal = shell();
    assert!(terminal.is_remote_pty());
    assert_eq!(terminal.remote_terminal_id(), Some(7));
    assert_eq!(terminal.remote_working_directory(), Some("/workspaces/project"));
    assert_eq!(terminal.title_override(), Some("host — Terminal"));
    terminal.forget_remote_transport();
    terminal.write_to_pty(b"ls\r".to_vec());
    assert!(messages(&terminal).is_empty());
}

#[test]
fn a_script_is_typed_into_a_new_shell() {
    let mut with_script = options(TerminalMode::InteractiveWithCompletion(3));
    with_script.activation_script = vec![". a".into(), ". b".into()];
    with_script.max_scroll_history_lines = Some(500_000);
    let terminal: Remote = Terminal::new_remote(with_script, MessageList::new(7), LIMITS, 80, 24);
    let typed: Vec<u8> = messages(&terminal)
        .iter()
        .flat_map(|message| match message {
            TransportMessage::Input(data) => data.clone(),
            other => panic!("unexpected message {other:?}"),
        })
        .collect();
    assert_eq!(typed, b". a\r. b\rclear\r");
    assert_eq!(terminal.completion, Some(3));
    assert_eq!(terminal.scrolling_history, 100_000);
    assert_eq!(shell().scrolling_history, 10_000);

    let mut task = options(TerminalMode::Task { state: "t", completion: 1 });
    task.activation_script = vec![". a".into()];
    let terminal: Remote = Terminal::new_remote(task, MessageList::new(7), LIMITS, 80, 24);
    assert!(messages(&terminal).is_empty());
}

#[test]
fn local_terminals_have_no_remote_state() {
    let mut terminal = shell();
    terminal.terminal_type = TerminalType::Local;
    assert!(!terminal.is_remote_pty());
    assert_eq!(terminal.remote_terminal_id(), None);
    assert_eq!(terminal.remote_next_offset(), None);
    assert_eq!(terminal.remote_working_directory(), None);
    assert!(terminal.process_remote_output(0, b"x".to_vec(), true).is_empty());
    assert!(terminal.process_remote_lost().is_empty());
    terminal.flush_remote_ack();
    terminal.forget_remote_transport();
}

#[test]
fn events_queue_until_the_terminal_is_gone() {
    let mut handle = RemotePtyHandle::new();
    assert!(handle.push_output(3, b"x".to_vec(), false));
    assert!(handle.push_exit(Some(2), None));
    assert!(handle.push_lost());
    let statuses: Vec<Option<i32>> = handle.events.iter().map(PtyEvent::exit_status).collect();
    assert_eq!(statuses, [None, Some(0x200), None]);
    assert_eq!(handle.events.len(), 3);
    assert!(matches!(handle.events[0], PtyEvent::Output { offset: 3, reset: false, .. }));
    assert!(matches!(handle.events[1], PtyEvent::Exited { code: Some(2), signal: None }));
    assert!(matches!(handle.events[2], PtyEvent::RemoteLost));
    handle.open = false;
    assert!(!handle.push_lost());
    assert_eq!(handle.events.len(), 3);
}

#[test]
fn an_unknown_exit_is_a_failure() {
    let mut handle = RemotePtyHandle::new();
    assert!(handle.push_exit(None, None));
    assert!(handle.push_exit(None, Some(15)));
    assert!(handle.push_exit(Some(0), None));
    let statuses: Vec<Option<i32>> = handle.events.iter().map(PtyEvent::exit_status).collect();
    assert_eq!(statuses, [Some(0x100), Some(15), Some(0)]);
}

#[test]
fn the_transport_keeps_messages_in_order() {
    let mut list = MessageList::new(9);
    list.resize(80, 24);
    list.close();
    assert_eq!(list.terminal_id(), 9);
    assert!(matches!(list.messages[0], TransportMessage::Resize { cols: 80, rows: 24 }));
    assert!(matches!(list.messages[1], TransportMessage::Close));
}

#[test]
fn sync_update_expires() {
    let mut handler = WebSyncHandler::new();
    let mut terminal = shell();
    assert_eq!(terminal.expire_sync_update(handler.sync_timeout(), 100), None);
    handler.set_timeout(100, 150);
    assert!(handler.pending_timeout());
    assert_eq!(terminal.expire_sync_update(handler.sync_timeout(), 120), Some(130));
    assert_eq!(terminal.sync_update_expiry, Some(250));
    assert_eq!(terminal.expire_sync_update(handler.sync_timeout(), 400), Some(0));
    assert!(handler.expired());
    handler.clear_timeout();
    assert!(!handler.expired());
}
