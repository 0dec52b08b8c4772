//! Channels, sessions, starts and what is recorded of them.
use lnx::broker::{
    agent_lost_message, client_step, collision_message, drain_notice, Accept, AgentAction, Broker,
    Channel, ClientStep, IdleStep, LoopStep, Registration,
};
use lnx::capture::{snapshot_stamps, unblock_frame_line, unblock_ready_line, GuestRead};
use lnx::cas::{safe_bundle_relative_path, unknown_block_message, CAS_MANIFEST_MAX_BYTES};
use lnx::config::{RunConfig, VhostUserFsMount};
use lnx::deterministic::{
    deterministic_stamp_content, initial_deterministic_clock_state, DeterministicConfig, TimerJump,
};
use lnx::launch::{
    launch_metadata_for_config, validate_runtime_share_compatibility, LaunchRead, RunningVmError,
};
use lnx::locks::{
    await_lock_step, recorded_maintenance_pid_from_lock, release_decision, signal_group_step,
    AwaitLock, PidError, SignalResult, SignalStep, LOCK_WAIT_MS,
};
use lnx::paths::{join, Layout};
use lnx::protocol::{
    agent_hello_is_accepted, checkpoint_reply, client_hello, connection_input_step, first_request,
    forward_step, proxy_open, restore_sync_reply, stdin_step, ClientHello, ConnectError,
    FirstRequest, HelloError, InputAction, InputRead, Message, ProxyAction, Reply,
};
use lnx::run::{
    await_owner_step, connect_seen, console_tail_lines, exclusive_lock_message, file_summary_line,
    log_tail, owner_after_lock, owner_after_start, owner_log_hint, owner_timeout_message,
    retry_step, AwaitOwner, ConnectSeen, ConsoleRead, FileKind, FileSummary, OwnerExit, OwnerNext,
    Retry, StartResult, EXIT_RESTORE_FAILED, OWNER_BOOT_TIMEOUT_MS,
};
use lnx::session::{open_exec, ClientHost, ExecRequest, HostUser};
use lnx::snapshots::{seed_files, HeaderRead};
use lnx::sparse::{copy_chunk, dense_source_message};
use lnx::stamps::FileText;
use lnx::start::{accept_restore, start_shares, trace_vm_start, SnapshotFiles, StartError};
use lnx::outcome::{
    outcome_path, read_final_snapshot_outcome, validate_or_record_final_snapshot_failure,
    OutcomeText, StoppedOwner,
};
use lnx::publish::{validate_restore_work_for_command, CommandBlocked};
use lnx::trace::{
    trace_agent_message, trace_client_checkpoint_request, trace_client_open, trace_clock_state,
    trace_guest_snapshot_exit, trace_path_event, trace_restore_sync_begin, trace_restore_sync_done,
    trace_snapshot_exit_done, trace_snapshot_request_guest, trace_timer_jump, TraceEvent, TraceField, TraceValue,
};
use lnx::vmnet::{queue_label, MAX_FRAME_SIZE};

fn layout() -> Layout {
    let dir = "/base/instances/vm".to_string();
    Layout {
        base: "/base".to_string(),
        instance: "vm".to_string(),
        kernel: "/base/vmlinuz".to_string(),
        rootfs: join(&dir, "rootfs.ext4"),
        instance_dir: dir.clone(),
        snapshot_dir: join(&dir, "memory-snapshots"),
        checkpoint_dir: join(&dir, "checkpoints"),
        vm_initialized: join(&dir, "vm-initialized"),
        run_dir: dir.clone(),
        console_log: join(&dir, "console.log"),
    }
}

fn run_config() -> RunConfig {
    RunConfig {
        layout: layout(),
        command: vec!["true".to_string()],
        cwd: "/Users/me/src".to_string(),
        cpus: 2,
        memory_mib: 4096,
        nested_kvm: true,
        restore_snapshot: None,
        restore_latest_if_available: false,
        forwards: Vec::new(),
        snapshot_output: None,
        run_as_root: false,
        no_host_shares: false,
        vhost_user_fs: Vec::new(),
        reuse_owner: true,
        deterministic: None,
        trace_events: false,
    }
}

fn found(text: &str) -> FileText {
    FileText::Found(text.to_string())
}

fn error(channel_id: u64, message: &str) -> Message {
    Message::Error {
        channel_id,
        message: message.to_string(),
    }
}

// The broker.

#[test]
fn forwards_keep_their_own_slots() {
    let mut broker = Broker::new(true);
    assert_eq!(broker.register_forward(7), Registration::Open);
    assert_eq!(broker.active_count(), 0);
    assert_eq!(broker.register_forward(7), Registration::Collision);
    assert_eq!(
        collision_message(7),
        "channel id collision for live channel 0000000000000007; deterministic mode cannot run identical commands concurrently"
    );
    assert!(!broker.close(7));
    broker.begin_shutdown();
    assert_eq!(broker.register_forward(8), Registration::Stopping);
}

#[test]
fn abandoned_channels_give_their_slots_back() {
    let mut broker = Broker::new(false);
    broker.reserve();
    assert_eq!(broker.register(3), Registration::Open);
    assert!(broker.abandon(3));
    assert!(!broker.has_channel(3));
    assert_eq!(broker.active_count(), 1);
    broker.release();
    assert_eq!(broker.active_count(), 0);

    broker.reserve();
    assert_eq!(broker.register(4), Registration::Open);
    assert!(broker.close(4));
    assert!(!broker.abandon(4));
    assert_eq!(broker.active_count(), 0);
}

#[test]
fn a_lost_agent_fails_its_clients_before_the_final_snapshot() {
    let mut broker = Broker::new(true);
    broker.reserve();
    assert_eq!(broker.register(3), Registration::Open);
    let (failed, dropped) = broker.agent_disconnected();
    assert!(failed);
    assert_eq!(dropped, vec![Channel { id: 3, owned: true }]);
    assert_eq!(
        drain_notice(dropped[0], &agent_lost_message("eof")),
        error(3, "guest agent disconnected before command completed: eof")
    );
    assert!(!broker.begin_final_snapshot());
    let mut deadline = None;
    assert_eq!(broker.idle_step(&mut deadline, 0, 0), IdleStep::AgentFailed);

    let mut broker = Broker::new(true);
    assert!(broker.begin_final_snapshot());
    let (failed, dropped) = broker.agent_disconnected();
    assert!(!failed);
    assert!(dropped.is_empty());
}

#[test]
fn activity_ends_the_wait_for_a_first_client() {
    let mut broker = Broker::new(false);
    let mut deadline = None;
    assert_eq!(broker.owner_step(Accept::WouldBlock, &mut deadline, 10, 0), LoopStep::Wait);
    broker.note_activity();
    assert_eq!(broker.owner_step(Accept::WouldBlock, &mut deadline, 10, 0), LoopStep::Shutdown);
}

#[test]
fn messages_of_the_agent_are_routed() {
    let mut broker = Broker::new(true);
    broker.reserve();
    assert_eq!(broker.register(5), Registration::Open);
    assert_eq!(
        broker.route(Message::Data { channel_id: 5, bytes: vec![1] }),
        AgentAction::Deliver {
            channel_id: 5,
            open: true,
            message: Message::Data { channel_id: 5, bytes: vec![1] },
        }
    );
    assert_eq!(
        broker.route(Message::Eof { channel_id: 6 }),
        AgentAction::Deliver {
            channel_id: 6,
            open: false,
            message: Message::Eof { channel_id: 6 },
        }
    );
    assert_eq!(
        broker.route(Message::OpenUrl {
            channel_id: 5,
            url: "http://localhost:3000/x".to_string(),
        }),
        AgentAction::OpenUrl {
            channel_id: 5,
            url: "http://localhost:3000/x".to_string(),
            forward: Some(("127.0.0.1", 3000)),
        }
    );
    assert_eq!(
        broker.route(Message::PortListeners { ports: vec![22, 8080] }),
        AgentAction::AutoForward { ports: vec![8080] }
    );
    assert_eq!(
        broker.route(Message::SnapshotExit { channel_id: 5 }),
        AgentAction::SnapshotExit { channel_id: 5 }
    );
    assert_eq!(
        broker.route(Message::ExecStarted { channel_id: 5 }),
        AgentAction::ExecStarted { channel_id: 5 }
    );
    assert_eq!(broker.route(Message::SnapshotReady), AgentAction::Ignore);
    assert_eq!(
        broker.route(Message::Close { channel_id: 5 }),
        AgentAction::Deliver {
            channel_id: 5,
            open: true,
            message: Message::Close { channel_id: 5 },
        }
    );
    assert!(!broker.has_channel(5));
    assert_eq!(broker.active_count(), 0);
}

#[test]
fn what_a_client_sends_goes_to_the_agent() {
    let data = Message::Data { channel_id: 2, bytes: vec![9] };
    assert_eq!(client_step(2, Some(data.clone())), ClientStep::Forward(data));
    assert_eq!(
        client_step(2, None),
        ClientStep::InputEnded(Message::Eof { channel_id: 2 })
    );
}

// The protocol.

#[test]
fn hellos_are_judged() {
    assert_eq!(client_hello(3, Message::Hello { version: 3 }), ClientHello::Accept);
    assert_eq!(
        client_hello(3, Message::Hello { version: 2 }),
        ClientHello::CloseMismatch { expected: 3, actual: 2 }
    );
    assert_eq!(
        client_hello(3, Message::SnapshotReady),
        ClientHello::Reject(Message::SnapshotReady)
    );
    assert!(agent_hello_is_accepted(3, &Some(Message::Hello { version: 3 })));
    assert!(!agent_hello_is_accepted(3, &Some(Message::Hello { version: 4 })));
    assert!(!agent_hello_is_accepted(3, &Some(Message::SnapshotReady)));
    assert!(!agent_hello_is_accepted(3, &None));
}

#[test]
fn first_requests_are_sorted() {
    let open = Message::OpenTcp {
        channel_id: 4,
        host: "127.0.0.1".to_string(),
        port: 80,
    };
    assert_eq!(
        first_request(open.clone()),
        FirstRequest::Open { channel_id: 4, message: open }
    );
    assert_eq!(
        first_request(Message::Checkpoint { channel_id: 1, path: "/c".to_string() }),
        FirstRequest::Checkpoint { channel_id: 1, path: "/c".to_string() }
    );
    assert_eq!(first_request(Message::Eof { channel_id: 1 }), FirstRequest::Invalid);
}

#[test]
fn input_is_sent_and_ended() {
    let eof = Message::Eof { channel_id: 1 };
    let data = Message::Data { channel_id: 1, bytes: vec![5] };
    assert_eq!(stdin_step(1, InputRead::End), InputAction::SendLast(eof.clone()));
    assert_eq!(stdin_step(1, InputRead::Bytes(vec![5])), InputAction::Send(data.clone()));
    assert_eq!(stdin_step(1, InputRead::Interrupted), InputAction::Retry);
    assert_eq!(stdin_step(1, InputRead::WouldBlock), InputAction::Stop);
    assert_eq!(stdin_step(1, InputRead::Failed), InputAction::Stop);
    assert_eq!(connection_input_step(1, InputRead::End), InputAction::SendLast(eof));
    assert_eq!(connection_input_step(1, InputRead::Bytes(vec![5])), InputAction::Send(data));
    assert_eq!(connection_input_step(1, InputRead::WouldBlock), InputAction::Wait);
    assert_eq!(
        connection_input_step(1, InputRead::Failed),
        InputAction::SendLast(Message::Close { channel_id: 1 })
    );
}

#[test]
fn connections_into_the_guest_are_opened() {
    let open = Message::OpenTcp {
        channel_id: 8,
        host: "127.0.0.1".to_string(),
        port: 80,
    };
    assert_eq!(proxy_open(8, "127.0.0.1".to_string(), 80, Vec::new()), vec![open.clone()]);
    assert_eq!(
        proxy_open(8, "127.0.0.1".to_string(), 80, vec![1, 2]),
        vec![open, Message::Data { channel_id: 8, bytes: vec![1, 2] }]
    );
    assert_eq!(forward_step(8, error(8, "refused")), ProxyAction::Fail("refused".to_string()));
    assert_eq!(forward_step(8, error(9, "refused")), ProxyAction::Ignore);
    assert_eq!(forward_step(8, Message::Close { channel_id: 8 }), ProxyAction::Done);
}

#[test]
fn requests_wait_for_their_answer() {
    assert_eq!(checkpoint_reply(1, Message::CheckpointCreated { channel_id: 1 }), Reply::Done);
    assert_eq!(checkpoint_reply(1, Message::CheckpointCreated { channel_id: 2 }), Reply::Waiting);
    assert_eq!(checkpoint_reply(1, error(1, "no")), Reply::Failed("no".to_string()));
    assert_eq!(restore_sync_reply(1, Message::RestoreSynced { channel_id: 1 }), Reply::Done);
    assert_eq!(restore_sync_reply(1, Message::CheckpointCreated { channel_id: 1 }), Reply::Waiting);
    assert_eq!(restore_sync_reply(1, error(1, "no")), Reply::Failed("no".to_string()));
}

// Owners.

#[test]
fn owners_are_waited_for() {
    assert_eq!(owner_after_lock(true), OwnerNext::Start);
    assert_eq!(owner_after_lock(false), OwnerNext::Leave);
    assert_eq!(owner_after_start(StartResult::Started), OwnerNext::Serve);
    assert_eq!(
        owner_after_start(StartResult::RestoreRefused),
        OwnerNext::Exit(EXIT_RESTORE_FAILED)
    );
    assert_eq!(owner_after_start(StartResult::Failed), OwnerNext::Fail);

    let mismatch = ConnectSeen::Mismatch { expected: 2, actual: 1 };
    assert_eq!(connect_seen(Ok(())), ConnectSeen::Connected);
    assert_eq!(
        connect_seen(Err(ConnectError::Hello(HelloError::Mismatch { expected: 2, actual: 1 }))),
        mismatch
    );
    assert_eq!(
        connect_seen(Err(ConnectError::Io("refused".to_string()))),
        ConnectSeen::NotReady
    );

    let waiting = ConnectSeen::NotReady;
    let refused = Some(OwnerExit { code: Some(86) });
    assert_eq!(await_owner_step(0, true, waiting, None), AwaitOwner::Interrupted(130));
    assert_eq!(await_owner_step(0, false, ConnectSeen::Connected, None), AwaitOwner::Session);
    assert_eq!(await_owner_step(0, false, mismatch, None), AwaitOwner::Mismatch);
    assert_eq!(await_owner_step(0, false, waiting, refused), AwaitOwner::RestoreRefused);
    assert_eq!(
        await_owner_step(0, false, waiting, Some(OwnerExit { code: None })),
        AwaitOwner::ExitedEarly
    );
    assert_eq!(await_owner_step(0, false, waiting, None), AwaitOwner::Wait);
    assert_eq!(
        await_owner_step(OWNER_BOOT_TIMEOUT_MS, false, waiting, None),
        AwaitOwner::TimedOut
    );

    assert_eq!(retry_step(0, 100, ConnectSeen::Connected), Retry::Session);
    assert_eq!(retry_step(0, 100, mismatch), Retry::Mismatch);
    assert_eq!(retry_step(99, 100, waiting), Retry::Wait);
    assert_eq!(retry_step(100, 100, waiting), Retry::TimedOut);
}

#[test]
fn users_are_shown_logs() {
    assert_eq!(
        exclusive_lock_message(),
        "starting a fresh VM owner requires exclusive ownership, but another owner started for this instance"
    );
    assert_eq!(owner_log_hint(&layout(), None), "");
    assert_eq!(owner_log_hint(&layout(), Some(&[])), "");
    assert_eq!(
        owner_log_hint(&layout(), Some(b"boom\n\n")),
        "\n\nVM owner log (/base/instances/vm/owner.log):\nboom"
    );
    assert_eq!(log_tail(b"abcdef", 3), "def");
    assert_eq!(log_tail(&[b'a', 0xff], 8), "a\u{fffd}");
    assert_eq!(
        console_tail_lines("/c", &ConsoleRead::Read(b"one \ntwo\n".to_vec())),
        vec!["console.tail one".to_string(), "console.tail two".to_string()]
    );
    assert_eq!(
        console_tail_lines("/c", &ConsoleRead::Read(Vec::new())),
        vec!["console.tail path=/c empty=true".to_string()]
    );
    assert_eq!(
        console_tail_lines("/c", &ConsoleRead::Failed("gone".to_string())),
        vec!["console.tail path=/c read_error=gone".to_string()]
    );
    assert_eq!(
        owner_timeout_message(true, "\nhint"),
        "timed out waiting for the lnx VM owner broker\nhint"
    );
    assert_eq!(
        owner_timeout_message(false, "\nhint"),
        "timed out waiting for the lnx VM owner broker"
    );
    let summary = FileSummary {
        kind: FileKind::File,
        size: 10,
        blocks: 3,
        modified_unix: Some(7),
    };
    assert_eq!(
        file_summary_line("rootfs", "/r", &Ok(summary)),
        "rootfs path=/r kind=file size=10 blocks=3 allocated_bytes=1536 modified_unix=7"
    );
    let huge = FileSummary {
        kind: FileKind::Dir,
        size: 0,
        blocks: u64::MAX,
        modified_unix: None,
    };
    assert_eq!(
        file_summary_line("d", "/d", &Ok(huge)),
        format!(
            "d path=/d kind=dir size=0 blocks={0} allocated_bytes={0} modified_unix=unknown",
            u64::MAX
        )
    );
    assert_eq!(
        file_summary_line("d", "/d", &Err("gone".to_string())),
        "d path=/d stat_error=gone"
    );
}

#[test]
fn locks_are_left_to_their_owner() {
    assert!(release_decision(&found("42\n"), 42));
    assert!(!release_decision(&found("43\n"), 42));
    assert!(!release_decision(&found("x"), 42));
    assert!(!release_decision(&FileText::Missing, 42));
    assert_eq!(
        recorded_maintenance_pid_from_lock("/l", &found(" 7 \n")),
        Ok(Some(7))
    );
    assert_eq!(recorded_maintenance_pid_from_lock("/l", &FileText::Missing), Ok(None));
    assert_eq!(
        recorded_maintenance_pid_from_lock("/l", &found("x")),
        Err(PidError::Unparsable { path: "/l/maintenance.pid".to_string() })
    );
    assert_eq!(await_lock_step(true, None, 0), AwaitLock::Locked);
    assert_eq!(await_lock_step(false, Some(3), 0), AwaitLock::Served(3));
    assert_eq!(await_lock_step(false, None, LOCK_WAIT_MS), AwaitLock::Retry);
    assert_eq!(await_lock_step(false, None, LOCK_WAIT_MS + 1), AwaitLock::TimedOut);
    assert_eq!(signal_group_step(0, None, None), SignalStep::InvalidPid);
    assert_eq!(signal_group_step(9, None, None), SignalStep::Group(9));
    assert_eq!(
        signal_group_step(9, Some(SignalResult::Delivered), None),
        SignalStep::Done
    );
    assert_eq!(
        signal_group_step(9, Some(SignalResult::Failed), None),
        SignalStep::Process(9)
    );
    assert_eq!(
        signal_group_step(9, Some(SignalResult::Failed), Some(SignalResult::Failed)),
        SignalStep::Fail
    );
    assert_eq!(
        signal_group_step(9, Some(SignalResult::Failed), Some(SignalResult::NoSuchProcess)),
        SignalStep::Done
    );
}

// Commands.

fn host<'a>(vars: &'a Vec<(String, String)>) -> ClientHost<'a> {
    ClientHost {
        user: HostUser {
            uid: 501,
            gid: 20,
            group: "staff".to_string(),
        },
        vars,
        zone: None,
        stdin_is_tty: true,
        stdout_is_tty: true,
        term: Some("dumb"),
        colorterm: None,
        size: (40, 120),
        fresh_id: 77,
    }
}

#[test]
fn commands_are_opened_on_terminals() {
    let command = vec!["ls".to_string(), "-l".to_string()];
    let vars: Vec<(String, String)> = Vec::new();
    let request = ExecRequest {
        command: &command,
        cwd: "/work",
        no_host_shares: false,
        run_as_root: false,
        deterministic: None,
        instance: "vm",
        ingress_domain: "example.test",
    };
    match open_exec(request, host(&vars)) {
        Message::OpenExec {
            channel_id, argv, cwd, pty, term, colorterm, rows, cols, uid, gid, group, env,
        } => {
            assert_eq!(channel_id, 77);
            assert_eq!(argv, command);
            assert_eq!(cwd, "/work");
            assert!(pty);
            assert_eq!(term, "xterm-256color");
            assert_eq!(colorterm, "");
            assert_eq!((rows, cols), (40, 120));
            assert_eq!((uid, gid, group.as_str()), (501, 20, "staff"));
            assert!(env.contains(&("LNX_INSTANCE".to_string(), "vm".to_string())));
            assert!(env.contains(&("LNX_INGRESS_DOMAIN".to_string(), "example.test".to_string())));
        }
        other => panic!("{:?}", other),
    }
}

#[test]
fn deterministic_commands_do_not_see_the_host() {
    let command = vec!["true".to_string()];
    let vars = vec![("LANG".to_string(), "de_DE.UTF-8".to_string())];
    let config = DeterministicConfig { seed: "s".to_string() };
    let opened = |fresh_id: u64| {
        let request = ExecRequest {
            command: &command,
            cwd: "/work",
            no_host_shares: true,
            run_as_root: false,
            deterministic: Some(&config),
            instance: "vm",
            ingress_domain: "d",
        };
        let mut client = host(&vars);
        client.fresh_id = fresh_id;
        open_exec(request, client)
    };
    assert_eq!(opened(1), opened(2));
    match opened(1) {
        Message::OpenExec { cwd, pty, term, rows, cols, uid, gid, group, .. } => {
            assert_eq!(cwd, "/");
            assert!(!pty);
            assert_eq!(term, "xterm-256color");
            assert_eq!((rows, cols), (24, 80));
            assert_eq!((uid, gid, group.as_str()), (1000, 1000, "lnxuser"));
        }
        other => panic!("{:?}", other),
    }
}

// Starts.

fn vmstate_header(memory_bytes: u64, vcpu_count: u32) -> Vec<u8> {
    let mut header = vec![0u8; 40];
    header[0..8].copy_from_slice(b"LKRNSS01");
    header[8..12].copy_from_slice(&4u32.to_le_bytes());
    header[16..24].copy_from_slice(&memory_bytes.to_le_bytes());
    header[32..36].copy_from_slice(&vcpu_count.to_le_bytes());
    header
}

#[test]
fn restored_vms_keep_the_shares_of_their_snapshot() {
    let mut config = run_config();
    let recorded = launch_metadata_for_config(&config, None).unwrap();

    let shares = start_shares(&config, None, LaunchRead::Missing).unwrap();
    assert!(!shares.from_snapshot);
    assert_eq!(shares.layout.host_home, "/Users/me");

    config.restore_snapshot = Some("/snap".to_string());
    config.cwd = "/Users/me/elsewhere".to_string();
    let shares = start_shares(&config, None, LaunchRead::Found(recorded.clone())).unwrap();
    assert!(shares.from_snapshot);
    assert_eq!(shares.metadata, recorded);

    config.no_host_shares = true;
    let shares = start_shares(&config, None, LaunchRead::Found(recorded)).unwrap();
    assert!(!shares.from_snapshot);

    let unreadable = start_shares(&config, None, LaunchRead::Failed("io".to_string()));
    assert_eq!(unreadable.unwrap_err().message(), "read /snap/launch.json: io");

    config.cwd = "/tmp".to_string();
    assert_eq!(
        start_shares(&config, None, LaunchRead::Missing),
        Err(StartError::NoHome)
    );
}

#[test]
fn snapshots_that_do_not_fit_are_not_restored() {
    let mut config = run_config();
    let metadata = launch_metadata_for_config(&config, None).unwrap();
    let stamp = deterministic_stamp_content(None);
    let agent = found("source=a\n");
    let launch = LaunchRead::Found(metadata.clone());
    let header = HeaderRead::Read(vmstate_header(4096 << 20, 2));
    let fits = |config: &RunConfig,
                initramfs: &FileText,
                launch: &LaunchRead,
                deterministic: &FileText,
                header: &HeaderRead| {
        let files = SnapshotFiles {
            initramfs,
            launch,
            deterministic,
            header,
            place: None,
            latest_place: None,
        };
        accept_restore(config, "/snap", &files, &metadata, &stamp, "/run/initramfs.stamp", &agent)
    };
    let same = found(&stamp);
    assert_eq!(fits(&config, &agent, &launch, &same, &header), Ok(()));
    assert_eq!(fits(&config, &agent, &launch, &same, &HeaderRead::Missing), Ok(()));
    assert_eq!(
        fits(&config, &found("source=b\n"), &launch, &same, &header)
            .unwrap_err()
            .message(),
        "snapshot initramfs is incompatible with the current guest agent: snapshot=/snap/initramfs.stamp current=/run/initramfs.stamp\nrecovery: provide a compatible snapshot; to explicitly cold-boot, run lnx --instance vm snapshots clear and retry without --snapshot"
    );
    assert!(matches!(
        fits(&config, &agent, &LaunchRead::Missing, &same, &header),
        Err(StartError::Launch { .. })
    ));
    let seeded = deterministic_stamp_content(Some(&DeterministicConfig { seed: "s".to_string() }));
    assert!(matches!(
        fits(&config, &agent, &launch, &found(&seeded), &header),
        Err(StartError::Deterministic { .. })
    ));
    assert!(matches!(
        fits(&config, &agent, &launch, &same, &HeaderRead::Read(vec![0u8; 40])),
        Err(StartError::Header { .. })
    ));
    config.memory_mib = 2048;
    assert_eq!(
        fits(&config, &agent, &launch, &same, &header)
            .unwrap_err()
            .message(),
        "snapshot VM config mismatch: snapshot_cpus=2 configured_cpus=2 snapshot_memory_mib=4096 configured_memory_mib=2048"
    );
}

#[test]
fn running_vms_serve_only_launches_like_theirs() {
    let mut config = run_config();
    let current = launch_metadata_for_config(&config, None).unwrap();
    let check = |record: &LaunchRead| {
        validate_runtime_share_compatibility(&layout(), record, &current).map_err(|e| e.message())
    };
    assert_eq!(check(&LaunchRead::Found(current.clone())), Ok(()));
    assert_eq!(
        check(&LaunchRead::Missing),
        Err("running VM has no launch metadata: /base/instances/vm/launch.json".to_string())
    );
    assert_eq!(
        check(&LaunchRead::Failed("io".to_string())),
        Err("read /base/instances/vm/launch.json: io".to_string())
    );
    config.vhost_user_fs.push(VhostUserFsMount {
        tag: "t".to_string(),
        mountpoint: "/mnt".to_string(),
        socket: "/s".to_string(),
        read_only: false,
    });
    let other = launch_metadata_for_config(&config, None).unwrap();
    assert!(matches!(
        validate_runtime_share_compatibility(&layout(), &LaunchRead::Found(other), &current),
        Err(RunningVmError::Incompatible { .. })
    ));
}

// Records.

fn text(key: &'static str, value: &str) -> TraceField {
    TraceField {
        key,
        ordinal: None,
        value: TraceValue::Text(value.to_string()),
    }
}

fn number(key: &'static str, value: i64) -> TraceField {
    TraceField {
        key,
        ordinal: None,
        value: TraceValue::Integer(value),
    }
}

#[test]
fn events_are_traced() {
    assert_eq!(
        trace_client_open(&Message::OpenTcp {
            channel_id: 10,
            host: "h".to_string(),
            port: 80,
        }),
        Some(TraceEvent {
            name: "client_open_tcp",
            fields: vec![
                text("channel_id", "000000000000000a"),
                text("host", "h"),
                number("port", 80),
            ],
        })
    );
    assert_eq!(trace_client_open(&Message::SnapshotReady), None);
    assert_eq!(
        trace_agent_message(&Message::ExitStatus { channel_id: 1, status: -1 }),
        Some(TraceEvent {
            name: "guest_exit_status",
            fields: vec![text("channel_id", "0000000000000001"), number("status", -1)],
        })
    );
    assert_eq!(
        trace_agent_message(&Message::Stderr { channel_id: 1, bytes: vec![7, 8] }),
        Some(TraceEvent {
            name: "guest_stderr",
            fields: vec![
                text("channel_id", "0000000000000001"),
                number("len", 2),
                TraceField {
                    key: "bytes",
                    ordinal: None,
                    value: TraceValue::Blob(vec![7, 8]),
                },
            ],
        })
    );
    assert_eq!(trace_agent_message(&Message::SnapshotReady), None);
    assert_eq!(
        trace_path_event("checkpoint_start", "/p".to_string()),
        TraceEvent {
            name: "checkpoint_start",
            fields: vec![text("path", "/p")],
        }
    );
    assert_eq!(
        trace_timer_jump(TimerJump {
            deadline_ticks: 1,
            counter_frequency_hz: 2,
            deadline_nanos: u64::MAX,
        }),
        TraceEvent {
            name: "timer_jump",
            fields: vec![
                number("deadline_ticks", 1),
                number("counter_frequency_hz", 2),
                number("deadline_nanos", -1),
            ],
        }
    );
    let state = initial_deterministic_clock_state();
    let traced = trace_clock_state(&state);
    assert_eq!(traced.name, "deterministic_clock_state");
    assert_eq!(traced.fields.len(), 6);
    assert_eq!(
        traced.fields[3],
        number("event_sequence", state.event_sequence as i64)
    );
}

#[test]
fn commands_and_starts_are_traced() {
    let traced = trace_client_open(&Message::OpenExec {
        channel_id: 1,
        argv: vec!["ls".to_string()],
        cwd: "/w".to_string(),
        pty: true,
        term: "t".to_string(),
        colorterm: String::new(),
        rows: 1,
        cols: 2,
        uid: 3,
        gid: 4,
        group: "g".to_string(),
        env: vec![("A".to_string(), "B".to_string())],
    })
    .unwrap();
    assert_eq!(traced.name, "client_open_exec");
    let ordinal = |key: &'static str, value: &str| TraceField {
        key,
        ordinal: Some(0),
        value: TraceValue::Text(value.to_string()),
    };
    assert_eq!(
        traced.fields,
        vec![
            text("channel_id", "0000000000000001"),
            text("cwd", "/w"),
            number("pty", 1),
            text("term", "t"),
            text("colorterm", ""),
            number("rows", 1),
            number("cols", 2),
            number("uid", 3),
            number("gid", 4),
            text("group", "g"),
            ordinal("argv", "ls"),
            ordinal("env_key", "A"),
            ordinal("env_value", "B"),
        ]
    );

    let mut config = run_config();
    config.deterministic = Some(DeterministicConfig { seed: "s".to_string() });
    assert_eq!(
        trace_vm_start(&config).fields,
        vec![
            text("instance", "vm"),
            number("cpus", 2),
            number("memory_mib", 4096),
            number("nested_kvm", 1),
            number("no_host_shares", 0),
            number("restore_snapshot", 0),
            text("network", "embedded-gvproxy"),
            text("seed", "s"),
            number("initial_realtime_unix_secs", 0),
        ]
    );
}

#[test]
fn restored_guests_are_logged() {
    assert_eq!(
        unblock_frame_line(&GuestRead::Read(75), &Ok(1)),
        "snapshot.restore.unblock.frame type=75 len=1"
    );
    assert_eq!(
        unblock_frame_line(&GuestRead::Read(75), &Err("short".to_string())),
        "snapshot.restore.unblock.frame_len_error short"
    );
    assert_eq!(
        unblock_frame_line(&GuestRead::Unavailable("TimedOut".to_string()), &Ok(0)),
        "snapshot.restore.unblock.frame_unavailable kind=TimedOut"
    );
    assert_eq!(
        unblock_ready_line(&GuestRead::Read(82)),
        "snapshot.restore.unblock.ready byte=82"
    );
    assert_eq!(
        unblock_ready_line(&GuestRead::Failed("io".to_string())),
        "snapshot.restore.unblock.ready_error io"
    );
}

#[test]
fn snapshots_hold_these_files() {
    assert_eq!(
        snapshot_stamps("/run"),
        vec![
            "/run/initramfs.stamp",
            "/run/launch.json",
            "/run/deterministic.stamp",
            "/run/deterministic-clock.state",
        ]
    );
    assert_eq!(
        seed_files(),
        vec![
            "pages.img",
            "vmstate.bin",
            "rootfs.ext4",
            "initramfs.stamp",
            "launch.json",
            "deterministic.stamp",
            "deterministic-clock.state",
        ]
    );
}

#[test]
fn copies_and_uploads_have_limits() {
    assert_eq!(CAS_MANIFEST_MAX_BYTES, 512 * 1024 * 1024);
    assert_eq!(MAX_FRAME_SIZE, 65550);
    assert!(safe_bundle_relative_path("a/b").is_ok());
    assert_eq!(safe_bundle_relative_path("../b").unwrap_err().path, "../b");
    assert_eq!(
        unknown_block_message("ab"),
        "server requested unknown local CAS block ab"
    );
    assert_eq!(copy_chunk(10, 4), 4);
    assert_eq!(copy_chunk(3, 4), 3);
    assert_eq!(
        dense_source_message("/f", 10, 9),
        "source is not sparse-safe to clone: /f len=10 allocated=9"
    );
    assert_eq!(queue_label("vm"), "lnx.vmnet.vm");
    assert_eq!(queue_label("v\0m"), "lnx.vmnet");
}

#[test]
fn events_of_an_owner_are_traced() {
    let channel = |name: &'static str, rest: Vec<TraceField>| {
        let mut fields = vec![TraceField {
            key: "channel_id",
            ordinal: None,
            value: TraceValue::Text("00000000000000ab".to_string()),
        }];
        fields.extend(rest);
        TraceEvent { name, fields }
    };
    let path = || TraceField {
        key: "path",
        ordinal: None,
        value: TraceValue::Text("/s".to_string()),
    };
    assert_eq!(
        trace_restore_sync_begin(0xab, &vec![1, 2]),
        channel(
            "restore_sync_begin",
            vec![TraceField {
                key: "entropy",
                ordinal: None,
                value: TraceValue::Blob(vec![1, 2]),
            }]
        )
    );
    assert_eq!(
        trace_restore_sync_done(0xab),
        channel("restore_sync_done", Vec::new())
    );
    assert_eq!(
        trace_guest_snapshot_exit(0xab),
        channel("guest_snapshot_exit", Vec::new())
    );
    assert_eq!(
        trace_snapshot_exit_done(0xab, "/s".to_string()),
        channel("snapshot_exit_done", vec![path()])
    );
    assert_eq!(
        trace_client_checkpoint_request(0xab, "/s".to_string()),
        channel("client_checkpoint_request", vec![path()])
    );
    assert_eq!(
        trace_snapshot_request_guest("/s".to_string(), true),
        TraceEvent {
            name: "snapshot_request_guest",
            fields: vec![
                path(),
                TraceField {
                    key: "full",
                    ordinal: None,
                    value: TraceValue::Integer(1),
                }
            ],
        }
    );
}

#[test]
fn unreadable_outcomes_name_the_step() {
    let told = |file: OutcomeText| {
        read_final_snapshot_outcome(&layout(), &file)
            .unwrap_err()
            .message()
    };
    let path = outcome_path(&layout());
    assert_eq!(
        told(OutcomeText::OpenFailed("loop".to_string())),
        format!("open {path}: loop")
    );
    assert_eq!(
        told(OutcomeText::StatFailed("gone".to_string())),
        format!("stat {path}: gone")
    );
    assert_eq!(
        told(OutcomeText::NotRegular),
        format!("final snapshot outcome is not a regular file: {path}")
    );
    assert_eq!(
        told(OutcomeText::ReadFailed("bad".to_string())),
        format!("read {path}: bad")
    );
    let unreadable = read_final_snapshot_outcome(&layout(), &OutcomeText::NotRegular);
    assert_eq!(
        validate_or_record_final_snapshot_failure("vm", 7, &unreadable),
        StoppedOwner::RecordUnreadable {
            error: format!("final snapshot outcome is not a regular file: {path}"),
            record: format!(
                "owner stopped without a valid final snapshot outcome: final snapshot outcome is not a regular file: {path}"
            ),
        }
    );
}

#[test]
fn unpublished_work_names_its_generation() {
    let blocked = validate_restore_work_for_command(
        &layout(),
        false,
        true,
        true,
        Some("generation_id=g1\n"),
        &None,
    );
    assert!(matches!(
        blocked,
        Err(CommandBlocked::RestoreWork(e)) if e.generation == "generation_id=g1"
    ));
}
