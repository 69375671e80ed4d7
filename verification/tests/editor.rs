use zed_web::client_state::{
    gunzip, gzip, load_client_state, mtime_columns, mtime_from_columns, snapshot_unsaved_buffers,
    written_by_another_build, ImageError, MTime, OpenBuffer, Restore, RestoreStep, RowBuffer,
    StoredState, UnsavedBufferRow, MAX_IMAGE_BYTES, UNSAVED_SNAPSHOT_LIMIT_BYTES,
};
use zed_web::clipboard::{
    defer_web_clipboard, end_recording, leave_temporary_mode, uses_system_clipboard, Operation,
    SelectionMark, Snapshot, VimGlobals,
};
use zed_web::kernels::{
    check_startup, frame_request, message_header, python_env_kernel_specifications, read_message,
    request_channel, same_path, Channel, KernelFault, LocalKernelSpecification,
    RemoteKernelSpecification, RequestKind, StartupOutcome, Toolchain, WebRunningKernel,
    MAX_MESSAGE,
};
use zed_web::notebook::{
    cell_position_spacer, join_lines, split_lines, Cell, CellControlType, CellEvent, CellPosition,
    CodeCell, ExecutionStatus, IconName, KernelMessage, MarkdownCellEvent, MovementDirection,
    OutputData, SavedCell, ShownOutput,
};
use zed_web::settings::{
    default_keymap_path_for, render_input_audio_device_dropdown,
    render_output_audio_device_dropdown, specific_overrides_keymap_path_for, KeymapOs,
    PlatformStyle, UserSettingsContent, WorktreeId, WEB_KEYMAP_PATH,
};
use zed_web::title_bar::{
    init_web_calls, init_web_updates, install_answer, render_call_controls,
    render_collaborator_list, set_web_call_status, set_web_update_status, ButtonLook, CallIcon,
    Collaborator, UpdateNotice, UpdateVersion, WebCallStatus, WebUpdateStatus,
};

const RICH: &str = "{\"text/plain\":\"fallback\",\"image/png\":\"iVBOR\"}";

fn code(source: &[&str], outputs: Vec<OutputData>) -> SavedCell {
    SavedCell::Code {
        id: "code".into(),
        metadata: "{\"tags\":[\"keep\"]}".into(),
        execution_count: Some(42),
        source: source.iter().map(|line| line.to_string()).collect(),
        outputs,
    }
}

fn code_cell(saved: SavedCell) -> CodeCell {
    match Cell::load(saved) {
        Cell::Code(cell) => cell,
        other => panic!("{other:?}"),
    }
}

fn text(cell: &SavedCell) -> String {
    format!("{cell:?}")
}

#[test]
fn saved_cells_preserve_source_attachments_and_all_output_data() {
    let outputs = || {
        vec![
            OutputData::Stream { name: "stderr".into(), text: "\u{1b}[31merror\rλ".into() },
            OutputData::DisplayData { data: RICH.into(), metadata: "{\"custom\":1}".into() },
            OutputData::ExecuteResult {
                execution_count: 42,
                data: RICH.into(),
                metadata: "{}".into(),
            },
            OutputData::Error {
                ename: "ValueError".into(),
                evalue: "λ".into(),
                traceback: vec!["trace\nline".into(), "last".into()],
            },
        ]
    };
    let raw = |source: &[&str]| SavedCell::Raw {
        id: "raw".into(),
        metadata: "{}".into(),
        source: source.iter().map(|line| line.to_string()).collect(),
    };
    let markdown = || SavedCell::Markdown {
        id: "markdown".into(),
        metadata: "{}".into(),
        source: vec!["![plot](attachment:plot.png)".into()],
        attachments: Some(RICH.into()),
    };
    for (saved, expected) in [
        (code(&["x = 1\n", "x"], outputs()), code(&["x = 1\n", "x"], outputs())),
        (markdown(), markdown()),
        (raw(&["raw\n", "tail"]), raw(&["raw\n", "tail"])),
        (raw(&[]), raw(&[])),
    ] {
        let cell = Cell::load(saved);
        assert_eq!(text(&cell.to_nbformat_cell()), text(&expected));
        assert!(!cell.is_dirty());
    }
    assert_eq!(Cell::load(markdown()).id(), "markdown");
    assert_eq!(Cell::load(raw(&["a", "b"])).current_source(), "ab");
}

#[test]
fn kernel_outputs_preserve_data_and_apply_display_updates_and_clears() {
    let mut cell = code_cell(code(&[], vec![]));
    cell.handle_message(
        KernelMessage::DisplayData {
            data: RICH.into(),
            metadata: "{\"keep\":1}".into(),
            display_id: Some("shared".into()),
        },
        0,
    );
    cell.handle_message(
        KernelMessage::ExecuteResult {
            execution_count: 17,
            data: RICH.into(),
            metadata: "{\"keep\":2}".into(),
            display_id: Some("shared".into()),
        },
        0,
    );
    assert!(cell.is_dirty());
    let saved_revision = cell.output_revision();
    cell.mark_outputs_saved(saved_revision);
    assert!(!cell.is_dirty());

    let update = |id: &str| KernelMessage::UpdateDisplayData {
        data: "{\"text/plain\":\"updated\"}".into(),
        metadata: "{\"changed\":true}".into(),
        display_id: Some(id.into()),
    };
    cell.handle_message(update("other"), 0);
    assert!(!cell.is_dirty());
    cell.handle_message(update("shared"), 0);
    match (&cell.outputs[0].data, &cell.outputs[1].data) {
        (
            OutputData::DisplayData { data: a, metadata },
            OutputData::ExecuteResult { execution_count: 17, data: b, .. },
        ) => {
            assert_eq!(a, b);
            assert_eq!(a, "{\"text/plain\":\"updated\"}");
            assert_eq!(metadata, "{\"changed\":true}");
        }
        other => panic!("{other:?}"),
    }
    assert_eq!(cell.output_revision(), saved_revision + 2);
    // Completing an older save must not mark this new output clean.
    cell.mark_outputs_saved(saved_revision);
    assert!(cell.is_dirty());

    cell.handle_message(KernelMessage::ClearOutput { wait: true }, 0);
    assert_eq!(cell.outputs.len(), 2);
    cell.handle_message(KernelMessage::Stream { stderr: true, text: "final\rλ".into() }, 0);
    assert_eq!(cell.outputs.len(), 1);
    assert!(matches!(
        &cell.outputs[0].data,
        OutputData::Stream { name, text } if name == "stderr" && text == "final\rλ"
    ));
    cell.handle_message(KernelMessage::ClearOutput { wait: false }, 0);
    assert!(!cell.has_outputs());
    cell.handle_message(KernelMessage::ExecuteInput { execution_count: 23 }, 0);
    assert_eq!(cell.execution_count, Some(23));
    cell.handle_message(KernelMessage::ExecuteInput { execution_count: 1 << 40 }, 0);
    assert_eq!(cell.execution_count, None);
    let error = KernelMessage::Error {
        ename: "E".into(),
        evalue: "v".into(),
        traceback: vec!["a".into(), "b".into()],
    };
    cell.handle_message(error, 0);
    match cell.outputs[0].shown() {
        ShownOutput::Error { traceback, .. } => assert_eq!(traceback, "a\nb"),
        other => panic!("{other:?}"),
    }
    let revision = cell.output_revision();
    cell.handle_message(KernelMessage::Other, 0);
    assert_eq!(cell.output_revision(), revision);
}

#[test]
fn a_running_cell_shows_that_it_runs() {
    let mut cell = code_cell(code(&["x"], vec![]));
    assert_eq!(cell.control(), CellControlType::RunCell);
    assert!(cell.render(None, 0).below.is_none());
    assert!(matches!(cell.control_clicked(), Some(CellEvent::Run(id)) if id == "code"));
    cell.start_execution(1_000);
    assert!(cell.is_executing());
    assert!(cell.control_clicked().is_none(), "a click interrupts the kernel");
    let area = cell.render(Some("Python"), 5).below.unwrap();
    assert_eq!(area.status, Some(ExecutionStatus::Running));
    assert_eq!((area.outputs, area.control, area.max_lines), (0, false, Some(5)));
    cell.handle_message(KernelMessage::ExecuteReply, 1_500);
    assert_eq!(cell.execution_duration(), Some(500));
    let view = cell.render(Some("Python"), 0);
    assert_eq!(view.language.as_deref(), Some("Python"));
    assert_eq!(view.below.unwrap().status, Some(ExecutionStatus::Took(500)));
    cell.start_execution(2_000);
    cell.show_kernel_error("no python");
    assert!(!cell.is_executing());
    assert_eq!(cell.control(), CellControlType::RerunCell);
    assert!(matches!(
        &cell.outputs[0].data,
        OutputData::Error { ename, evalue, traceback } if ename == "Kernel Error"
            && evalue == "cell could not be executed" && traceback == &["no python".to_owned()]
    ));
    cell.set_execution_count(0);
    assert_eq!(cell.execution_count(), None);
    cell.set_execution_count(3);
    assert_eq!(cell.execution_count(), Some(3));
    cell.set_selected(true);
    cell.set_cell_position(CellPosition::Last);
    let view = cell.render(None, 0);
    assert!(view.selected && view.spacer_below && !view.spacer_above);
    assert!(cell_position_spacer(Some(CellPosition::First), true));
    assert_eq!(CellControlType::StopCell.icon_name(), IconName::Stop);
    assert_eq!(CellControlType::RunCell.id(), "CellControlType::RunCell");
}

#[test]
fn lines_keep_their_ends() {
    for text in ["", "a", "a\n", "\n", "a\nb", "a\n\nb\n"] {
        assert_eq!(join_lines(&split_lines(text)), text);
    }
    assert_eq!(split_lines("a\n\nb"), vec!["a\n".to_owned(), "\n".to_owned(), "b".to_owned()]);
    assert!(split_lines("").is_empty());
}

#[test]
fn text_cells_are_edited_and_shown() {
    let markdown = |source: &str| SavedCell::Markdown {
        id: "m".into(),
        metadata: "{}".into(),
        source: vec![source.into()],
        attachments: None,
    };
    let mut cell = match Cell::load(markdown("")) {
        Cell::Markdown(cell) => cell,
        other => panic!("{other:?}"),
    };
    assert!(cell.is_editing(), "an empty cell is edited at once");
    cell.editor.text = "# hi".into();
    cell.reparse_markdown();
    assert_eq!(cell.source, "# hi");
    let events = cell.run();
    assert!(matches!(events[0], MarkdownCellEvent::FinishedEditing));
    assert!(matches!(&events[1], MarkdownCellEvent::Run(id) if id == "m"));
    assert!(cell.run().is_empty());
    assert!(!cell.render().editing);
    cell.set_editing(true);
    assert!(cell.blurred());
    assert!(!cell.blurred());
    let mut cell = Cell::load(markdown("text"));
    assert_eq!(cell.move_to(MovementDirection::End), Some(MovementDirection::End));
    assert!(matches!(&cell, Cell::Markdown(cell) if cell.is_editing()));
    let raw = SavedCell::Raw { id: "r".into(), metadata: "{}".into(), source: vec![] };
    assert_eq!(Cell::load(raw).move_to(MovementDirection::Start), None);
}

#[test]
fn kernels_are_listed_once_per_interpreter() {
    let toolchain =
        |name: &str, path: &str| Toolchain { name: name.into(), path: path.into() };
    let kernels = python_env_kernel_specifications(&vec![
        toolchain("user", "/venv/bin/python"),
        toolchain("same", "/venv/bin/python"),
        toolchain("system", "/usr/bin/python"),
    ]);
    let listed: Vec<_> =
        kernels.iter().map(|kernel| (&kernel.name[..], kernel.python.as_deref())).collect();
    assert_eq!(
        listed,
        vec![
            ("Python (sandbox)", None),
            ("user", Some("/venv/bin/python")),
            ("system", Some("/usr/bin/python")),
        ]
    );
    assert!(kernels[1].same_as(&kernels[1]));
    assert!(!kernels[1].same_as(&kernels[2]));
    let local = |name: &str, spec: u8| LocalKernelSpecification {
        name: name.into(),
        path: "/k".into(),
        kernelspec: spec,
    };
    assert!(local("a", 1) == local("a", 2));
    assert!(local("a", 1) != local("b", 1));
    for (a, b, equal) in [
        ("/a/b", "/a/b/", true),
        ("/a//b", "/a/./b", true),
        ("a/b/.", "a/b", true),
        ("/a", "a", false),
        ("./a", "a", false),
        ("./a", ".//a", true),
        ("/a/..", "/", false),
        ("", ".", false),
    ] {
        assert_eq!(same_path(a, b), equal, "{a:?} and {b:?}");
        assert_eq!(std::path::Path::new(a) == std::path::Path::new(b), equal, "{a:?} and {b:?}");
    }
    assert!(LocalKernelSpecification { path: "/k/".into(), ..local("a", 1) } == local("a", 1));
    let remote = |url: &str, token: &str| RemoteKernelSpecification {
        name: "r".into(),
        url: url.into(),
        token: token.into(),
        kernelspec: (),
    };
    assert!(remote("http://a", "1") == remote("http://a", "2"));
    assert!(remote("http://a", "1") != remote("http://b", "1"));
}

#[test]
fn kernel_messages_are_lines_of_json() {
    assert!(matches!(read_message(&vec![]), Ok(None)));
    let value = read_message(&b"{\"ready\":true}\n".to_vec()).unwrap().unwrap();
    assert_eq!(check_startup(StartupOutcome::Message(value)), Ok(()));
    let value = read_message(&b"{\"ready\":1}\n".to_vec()).unwrap().unwrap();
    assert_eq!(
        check_startup(StartupOutcome::Message(value)),
        Err("Invalid kernel startup response")
    );
    assert_eq!(
        check_startup(StartupOutcome::Closed),
        Err("Python kernel closed before startup")
    );
    assert_eq!(
        check_startup(StartupOutcome::TimedOut),
        Err("Timed out starting the Python kernel")
    );
    let cut = read_message(&b"{\"ready\":true}".to_vec()).err().unwrap();
    assert!(matches!(cut, KernelFault::TooLargeOrInterrupted));
    assert_eq!(cut.message(), "Kernel message exceeds the 8 MiB limit or was interrupted");
    match read_message(&b"nope\n".to_vec()) {
        Err(KernelFault::NotJson(text)) => {
            assert_eq!(text, "expected ident at line 1 column 2");
            assert_eq!(KernelFault::NotJson(text.clone()).message(), text);
        }
        other => panic!("unexpected outcome {other:?}"),
    }
    match read_message(&b"{\"error\":\"no kernel\"}\n".to_vec()) {
        Err(fault) => assert_eq!(fault.message(), "no kernel"),
        Ok(_) => panic!("accepted"),
    }
    let mut large = vec![b' '; MAX_MESSAGE];
    large.push(b'\n');
    assert!(matches!(read_message(&large), Err(KernelFault::TooLargeOrInterrupted)));
    assert!(frame_request(vec![b'1'; MAX_MESSAGE]).is_none());
    assert_eq!(frame_request(b"1".to_vec()).unwrap(), b"1\n");
    assert!(matches!(read_message(&frame_request(b"1".to_vec()).unwrap()), Ok(Some(_))));
}

#[test]
fn kernel_requests_have_their_channels() {
    assert_eq!(request_channel(RequestKind::InputReply), Channel::Stdin);
    assert_eq!(request_channel(RequestKind::InterruptRequest), Channel::Control);
    assert_eq!(request_channel(RequestKind::ShutdownRequest), Channel::Control);
    assert_eq!(request_channel(RequestKind::DebugRequest), Channel::Control);
    assert_eq!(request_channel(RequestKind::Other), Channel::Shell);
    let header = message_header(Some("s"), "id".into(), "new".into(), "execute_request");
    assert_eq!((&header.session[..], &header.version[..]), ("s", "5.3"));
    assert_eq!(message_header(None, "id".into(), "new".into(), "x").session, "new");
    let mut kernel: WebRunningKernel<u8, u8, u8> = WebRunningKernel::new("/w".into(), 0, 1, 2);
    kernel.set_execution_state(4);
    kernel.set_kernel_info(5);
    assert_eq!((kernel.working_directory(), kernel.state, kernel.info), ("/w", 4, Some(5)));
    kernel.kill();
    assert!(kernel.task.is_none() && kernel.connection.is_none());
}

#[test]
fn keymap_paths_by_os() {
    assert_eq!(default_keymap_path_for(KeymapOs::Mac), "keymaps/default-macos.json");
    assert_eq!(default_keymap_path_for(KeymapOs::Windows), "keymaps/default-windows.json");
    assert_eq!(default_keymap_path_for(KeymapOs::Linux), "keymaps/default-linux.json");
    assert_eq!(default_keymap_path_for(KeymapOs::current("linux")), "keymaps/default-linux.json");
    assert_eq!(KeymapOs::current("macos"), KeymapOs::Mac);
    assert_eq!(KeymapOs::current("windows"), KeymapOs::Windows);
    assert!(specific_overrides_keymap_path_for(KeymapOs::Mac).ends_with("-macos.json"));
    assert_eq!(
        specific_overrides_keymap_path_for(KeymapOs::current("linux")),
        "keymaps/specific-overrides.json"
    );
    assert_eq!(WEB_KEYMAP_PATH, "keymaps/web.json");
}

#[test]
fn only_the_first_style_of_a_browser_counts() {
    let mut set = None;
    assert_eq!(PlatformStyle::browser_platform(&set), PlatformStyle::Mac);
    PlatformStyle::set_platform_style(&mut set, PlatformStyle::Windows);
    PlatformStyle::set_platform_style(&mut set, PlatformStyle::Linux);
    assert_eq!(PlatformStyle::browser_platform(&set), PlatformStyle::Windows);
}

#[test]
fn settings_are_overridden_by_name() {
    let content = UserSettingsContent {
        profiles: vec![("work".to_owned(), 1)],
        release_channel_overrides: vec![("dev".to_owned(), 'd')],
        platform_overrides: vec![("linux".to_owned(), 'l')],
    };
    assert_eq!(content.for_profile(Some("work")), Some(&1));
    assert_eq!(content.for_profile(Some("home")), None);
    assert_eq!(content.for_profile(None), None);
    assert_eq!(content.for_release_channel("dev"), Some(&'d'));
    assert_eq!(content.for_os("macos"), None);
    let id = WorktreeId::from_usize(7);
    assert_eq!(WorktreeId::from_proto(id.to_proto()), id);
    assert_eq!((id.to_usize(), id.text()), (7, "7".to_owned()));
    let input = render_input_audio_device_dropdown("t", "d");
    assert_eq!(input.id, "audio-input-device-web");
    let output = render_output_audio_device_dropdown("t", "d");
    assert_eq!(output.notice, "Audio devices are not available in the browser");
}

fn snapshot(edits: usize) -> Snapshot {
    Snapshot {
        editor: 1,
        mode: "Normal".into(),
        operators: vec!["Delete".into()],
        register: Some('+'),
        pre_count: None,
        post_count: Some(2),
        forced_motion: false,
        selections: vec![SelectionMark { id: 1, start: 0, end: 0, reversed: false }],
        edits,
    }
}

fn globals() -> VimGlobals<&'static str> {
    VimGlobals {
        web_clipboard_pending: 0,
        dot_recording: true,
        stop_recording_after_next_action: true,
        recording_actions: vec!["a"],
        recorded_actions: vec!["old"],
        recording_count: Some(3),
        recorded_count: None,
        recording_register_for_dot: Some('x'),
        recorded_register_for_dot: None,
    }
}

type Op = Operation<&'static str, u8, u8, u8>;

#[test]
fn commands_wait_for_the_clipboard() {
    assert!(uses_system_clipboard(Some('*'), true));
    assert!(uses_system_clipboard(Some('"'), false));
    assert!(!uses_system_clipboard(None, true));
    assert!(!uses_system_clipboard(Some('a'), false));
    let mut globals = globals();
    let paste = || -> Op { Operation::Paste("p") };
    let there = defer_web_clipboard(&mut globals, paste(), None, false, true, Some(snapshot(1)));
    assert!(there.is_err());
    let gone = defer_web_clipboard(&mut globals, paste(), None, false, false, None);
    assert!(gone.is_err());
    let mut action =
        defer_web_clipboard(&mut globals, paste(), None, false, false, Some(snapshot(1)))
            .ok()
            .unwrap();
    assert_eq!(globals.web_clipboard_pending, 1);
    assert!(action.complete(&mut globals, Some(&snapshot(1))));
    assert_eq!(globals.web_clipboard_pending, 0);
    action.finish(&mut globals);
    assert_eq!(globals.web_clipboard_pending, 0);
    // Anything that changed in the meantime drops the command.
    assert!(!action.complete(&mut globals, Some(&snapshot(2))));
    assert!(!action.complete(&mut globals, None));
    let mut moved = snapshot(1);
    moved.selections[0].end = 4;
    assert!(!action.complete(&mut globals, Some(&moved)));
    let mut other = snapshot(1);
    other.operators[0] = "Yank".into();
    assert!(!other.same_as(&snapshot(1)));
}

#[test]
fn recording_ends_with_a_command_that_waited() {
    let mut recorded = globals();
    end_recording(&mut recorded, false, Some("p"));
    assert_eq!(recorded.recorded_actions, vec!["a", "p"]);
    assert!(recorded.recording_actions.is_empty());
    assert_eq!((recorded.recorded_count, recorded.recording_count), (Some(3), None));
    assert_eq!(recorded.recorded_register_for_dot, Some('x'));
    assert!(!recorded.dot_recording && !recorded.stop_recording_after_next_action);
    let mut before = globals();
    end_recording(&mut before, true, Some("p"));
    assert_eq!(before.recorded_actions, vec!["a"]);
    let mut idle = globals();
    idle.dot_recording = false;
    end_recording(&mut idle, false, Some("p"));
    assert_eq!(idle.recorded_actions, vec!["old"]);
    let mut temporary = true;
    assert!(leave_temporary_mode(&mut temporary));
    assert!(!leave_temporary_mode(&mut temporary));
}

#[test]
fn call_controls_follow_the_call() {
    let mut call = init_web_calls(());
    let join = render_call_controls(&call.status);
    assert_eq!(join.len(), 1);
    assert_eq!((join[0].id, join[0].label, join[0].command), ("join-call", "Join Call", "join"));
    assert_eq!(join[0].look, ButtonLook::Plain);
    let status = |phase: &str, error: Option<&str>| WebCallStatus {
        phase: phase.into(),
        muted: true,
        deafened: false,
        sharing_screen: true,
        screen_supported: true,
        peers: 3,
        error: error.map(str::to_owned),
    };
    set_web_call_status(&mut call, status("joining", Some("denied")));
    let joining = render_call_controls(&call.status);
    assert_eq!((joining[0].label, &joining[0].tooltip[..]), ("Joining Call…", "denied"));
    assert_eq!(joining[0].look, ButtonLook::Disabled);
    set_web_call_status(&mut call, status("joined", None));
    let buttons = render_call_controls(&call.status);
    let commands: Vec<_> = buttons.iter().map(|button| button.command).collect();
    assert_eq!(commands, vec!["show", "microphone", "audio", "screen", "leave"]);
    assert_eq!(buttons[0].tooltip, "3 in this call");
    assert_eq!((buttons[1].icon, buttons[1].look), (CallIcon::MicMute, ButtonLook::Warning));
    assert_eq!((buttons[2].label, buttons[2].look), ("Mute Audio", ButtonLook::Plain));
    assert_eq!((buttons[3].label, buttons[3].look), ("Stop Sharing Screen", ButtonLook::Accent));
    let mut plain = status("joined", None);
    plain.screen_supported = false;
    assert_eq!(render_call_controls(&plain).len(), 4);
}

#[test]
fn people_are_shown_in_order() {
    let person = |replica_id: u16| Collaborator {
        replica_id,
        user_id: replica_id as u64,
        name: format!("n{replica_id}"),
    };
    let people = [12, 9, 8, 14, 10, 13, 11].into_iter().map(person).collect();
    let (_, list) = render_collaborator_list(people, 13);
    let shown: Vec<_> = list.shown.iter().map(|c| (&c.label[..], c.color)).collect();
    assert_eq!(
        shown,
        vec![("n13 (you)", 5), ("n8", 0), ("n9", 1), ("n10", 2), ("n11", 3)]
    );
    assert_eq!(list.overflow, Some(("+2".to_owned(), "n12\nn14".to_owned())));
    let (_, list) = render_collaborator_list(vec![person(3)], 8);
    assert_eq!(list.shown[0].color, 0);
    assert!(list.overflow.is_none());
}

#[test]
fn updates_are_announced() {
    let mut updater = init_web_updates(());
    let mut version = UpdateVersion::new(WebUpdateStatus::Idle);
    assert!(matches!(version.render(), UpdateNotice::Nothing));
    set_web_update_status(&mut updater, WebUpdateStatus::Ready { build: "b2".into() });
    assert!(version.observe(updater.status));
    match version.render() {
        UpdateNotice::Ready { tooltip } => {
            assert_eq!(tooltip, "Update to b2. Restarts the shared workspace.");
        }
        other => panic!("{other:?}"),
    }
    version.dismiss();
    assert!(matches!(version.render(), UpdateNotice::Nothing));
    assert!(!version.observe(WebUpdateStatus::Ready { build: "b2".into() }));
    assert!(matches!(version.render(), UpdateNotice::Nothing));
    let downloading = WebUpdateStatus::Downloading { build: "b3".into(), progress: Some(7) };
    assert!(version.observe(downloading));
    match version.render() {
        UpdateNotice::Downloading { progress, tooltip } => {
            assert_eq!(progress, Some(7));
            assert_eq!(tooltip, "Preparing editor b3; you can keep working.");
        }
        other => panic!("{other:?}"),
    }
    for (p, q) in [(0.0f32, -0.0f32), (0.5, 0.5), (0.5, 0.25), (f32::NAN, f32::NAN)] {
        let at = |progress: f32| WebUpdateStatus::Downloading {
            build: "b3".into(),
            progress: Some(progress.to_bits()),
        };
        assert_eq!(at(p).same_as(&at(q)), p == q, "{p} and {q}");
    }
    assert!(version.observe(WebUpdateStatus::Error { message: "no".into() }));
    assert!(matches!(version.render(), UpdateNotice::Failed { message } if message == "no"));
    assert!(version.observe(WebUpdateStatus::Checking));
    assert!(version.observe(WebUpdateStatus::Installing { build: "b3".into() }));
    assert!(!version.show_update_in_menu_bar());
    assert_eq!(install_answer(Some(0)), Some("install"));
    assert_eq!(install_answer(Some(1)), None);
    assert_eq!(install_answer(None), None);
}

fn buffer(path: Option<&str>, text: &str, dirty: bool) -> OpenBuffer {
    OpenBuffer {
        dirty,
        abs_path: path.map(str::to_owned),
        text: text.into(),
        saved_mtime: Some(MTime { seconds: 5, nanos: 6 }),
    }
}

#[test]
fn snapshot_writes_dirty_path_backed_buffers_only() {
    let rows = snapshot_unsaved_buffers(
        &vec![
            buffer(Some("/root/clean.rs"), "fn clean() {}", false),
            buffer(Some("/root/dirty.rs"), "edited fn dirty() {}", true),
            buffer(None, "scratch", true),
        ],
        9,
    );
    assert_eq!(rows.len(), 1);
    assert_eq!(rows[0].abs_path, "/root/dirty.rs");
    assert_eq!(rows[0].text, "edited fn dirty() {}");
    assert_eq!(rows[0].mtime, Some(MTime { seconds: 5, nanos: 6 }));
    assert_eq!(rows[0].snapshot_at_unix_ms, 9);
}

#[test]
fn snapshot_respects_limit() {
    let big = "x".repeat(UNSAVED_SNAPSHOT_LIMIT_BYTES + 1);
    let rows = snapshot_unsaved_buffers(
        &vec![
            buffer(Some("/root/big.rs"), &big, true),
            buffer(Some("/root/small.rs"), "small", true),
        ],
        9,
    );
    assert_eq!(rows.len(), 1);
    assert_eq!(rows[0].abs_path, "/root/small.rs");
}

fn row(text: &str) -> UnsavedBufferRow {
    UnsavedBufferRow {
        abs_path: "/root/dirty.rs".into(),
        text: text.into(),
        mtime: Some(MTime { seconds: 5, nanos: 6 }),
        snapshot_at_unix_ms: 1,
    }
}

#[test]
fn restore_applies_text_and_marks_dirty() {
    let mut restore = Restore::new();
    let step = restore
        .restore_row(&row("edited fn dirty() {}"), &RowBuffer::Opened("fn dirty() {}".into()));
    let expected = RestoreStep::Replace { reloaded_at: Some(MTime { seconds: 5, nanos: 6 }) };
    assert_eq!(step, expected);
    assert_eq!(restore.restored, 1);
}

#[test]
fn restore_skips_identical_text() {
    let mut restore = Restore::new();
    let opened = RowBuffer::Opened("edited fn dirty() {}".into());
    assert_eq!(restore.restore_row(&row("edited fn dirty() {}"), &opened), RestoreStep::Show);
    assert_eq!(restore.restored, 1);
}

#[test]
fn restore_marks_conflict_when_disk_changed() {
    let rows =
        snapshot_unsaved_buffers(&vec![buffer(Some("/root/dirty.rs"), "edited fn dirty() {}", true)], 9);
    assert_eq!(rows.len(), 1);
    let mut restore = Restore::new();
    let on_disk = RowBuffer::Opened("fn changed_on_disk() {}".into());
    // The buffer counts as loaded when the edit was begun, so the newer file is a conflict.
    let step = restore.restore_row(&rows[0], &on_disk);
    assert_eq!(step, RestoreStep::Replace { reloaded_at: rows[0].mtime });
    assert!(rows[0].mtime.is_some());
    assert_eq!(rows[0].text, "edited fn dirty() {}");
    assert_eq!(restore.restored, 1);
}

#[test]
fn restore_drops_rows_for_closed_worktrees() {
    let mut restore = Restore::new();
    assert_eq!(restore.restore_row(&row("gone"), &RowBuffer::NotInProject), RestoreStep::Drop);
    assert_eq!(restore.restore_row(&row("gone"), &RowBuffer::Failed), RestoreStep::Drop);
    assert_eq!(restore.restored, 0);
}

#[test]
fn times_survive_their_columns() {
    let time = Some(MTime { seconds: 5, nanos: 6 });
    let (seconds, nanos) = mtime_columns(time);
    assert_eq!(mtime_from_columns(seconds, nanos), time);
    assert_eq!(mtime_columns(None), (None, None));
    assert_eq!(mtime_from_columns(Some(5), None), Some(MTime { seconds: 5, nanos: 0 }));
    assert_eq!(mtime_from_columns(None, Some(6)), None);
}

#[test]
fn gzip_round_trips_and_caps_output() {
    let image = b"SQLite format 3\0".repeat(64);
    let compressed = gzip(&image).unwrap();
    assert!(compressed.len() < image.len());
    assert_eq!(gunzip(&compressed, image.len()).unwrap(), image);
    assert_eq!(gunzip(&compressed, image.len() - 1), Err(ImageError::TooLarge));
    assert_eq!(gunzip(b"no gzip", 10), Err(ImageError::NotDecompressed));
}

#[test]
fn stored_state_is_loaded() {
    let stored = |sqlite: Vec<u8>, gzip: bool| StoredState {
        sqlite,
        gzip,
        version: 4,
        client_build: Some("b1".into()),
    };
    assert_eq!(load_client_state(stored(vec![], true)), Ok((None, 4)));
    assert_eq!(load_client_state(stored(vec![1, 2], false)), Ok((Some(vec![1, 2]), 4)));
    let compressed = gzip(&[1, 2, 3]).unwrap();
    assert_eq!(load_client_state(stored(compressed, true)), Ok((Some(vec![1, 2, 3]), 4)));
    let large = vec![0; MAX_IMAGE_BYTES + 1];
    assert_eq!(load_client_state(stored(gzip(&large).unwrap(), true)), Err(ImageError::TooLarge));
    assert_eq!(load_client_state(stored(large, false)), Err(ImageError::TooLarge));
    assert!(written_by_another_build(Some("b1"), Some("b2")));
    assert!(!written_by_another_build(Some("b1"), Some("b1")));
    assert!(!written_by_another_build(Some("b1"), None));
}
