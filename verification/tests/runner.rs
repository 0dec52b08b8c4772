//! Running an instance: snapshots, leases, launches and deterministic mode.
use lnx::broker::{drain_notice, Broker, Registration};
use lnx::config::{refresh_default_restore_snapshot, RunConfig};
use lnx::deterministic::{
    deterministic_clock_state_content, deterministic_clock_state_for_start,
    deterministic_exec_request_id, deterministic_restore_entropy,
    deterministic_restore_sync_request_id, deterministic_stamp_content, import_timer_jumps,
    initial_deterministic_clock_state, krun_deterministic_time, parse_deterministic_clock_state,
    snapshot_deterministic_incompatibility, timer_jump_start, with_event_sequence,
    DeterministicClockState, DeterministicConfig, RESTORE_ENTROPY_BYTES,
};
use lnx::forwards::{forward_spec, localhost_url_forward, PortForward};
use lnx::launch::{
    default_restore_version_matches, host_home_for_cwd, snapshot_launch_incompatibility,
    snapshot_share_layout, LaunchCompatibility, LaunchHostShareCache, LaunchMetadata, LaunchRead,
    LaunchShares, LaunchVhostUserFsMount, ShareLayout, LAUNCH_METADATA_VERSION,
};
use lnx::locks::{
    acquire_decision, bootstrap_lock_is_stale, owner_pid_from_lock, owner_slot_step,
    owner_start_lock_is_stale, remove_stale_decision, replace_step, Acquire, OwnerSlot,
    ProcessProbe, ReplaceAction, ReplaceView, Replacing,
};
use lnx::outcome::{
    acknowledge_final_snapshot_outcome, final_snapshot_outcome_content, finished_outcome_content,
    outcome_path, read_final_snapshot_outcome, validate_or_record_final_snapshot_failure,
    Acknowledge, OutcomeFile, OutcomeStatus, OutcomeText, StoppedOwner, FINAL_SNAPSHOT_OUTCOME,
};
use lnx::paths::{join, Layout};
use lnx::protocol::{
    after_connect_error, broker_hello, encode_frame, frame_length, AfterConnectError, ConnectError,
    HelloError, Message,
};
use lnx::publish::{
    cleanup_snapshot_runtime_state, finish_restore_work_after_final_snapshot, marker_content,
    publish_plan, restore_work_active_marker, restore_work_is_active, snapshot_publish_previous,
    snapshot_publish_temp, validate_restore_work_for_command, AfterFinalSnapshot, CommandBlocked,
    DirOp, RESTORE_WORK_SNAPSHOT,
};
use lnx::session::{
    exec_env, exec_identity, HostUser, DETERMINISTIC_EXEC_GID, DETERMINISTIC_EXEC_GROUP,
    DETERMINISTIC_EXEC_UID, DETERMINISTIC_TERM,
};
use lnx::settings::{
    broker_idle_ttl_from_env, debug_flag_enabled_in, owner_idle_ttl_from_env,
    zone_from_localtime_target, RootfsBackend,
};
use lnx::shares::{
    cwd_write_allowlist, guest_cwd, home_write_allowlist, preflight_host_share_cwd_with_home,
    ShareState,
};
use lnx::snapshots::{
    initramfs_stamp_key, paths_refer_to_same_snapshot, prepared_restore, promote_snapshot_rootfs,
    read_snapshot_generation_id, restore_clone_line, snapshot_generation_id,
    snapshot_initramfs_is_compatible, snapshot_lifecycle_manifest,
    snapshot_restore_files, snapshot_restore_recovery_guidance, snapshot_vm_config,
    validate_restore_snapshot_rootfs, validate_snapshot_initramfs_compatibility, FileStat,
    HeaderRead, PromoteError, PromotePlan, RestoreRefusal, SnapshotTimes, StatRead, StateStats,
    SNAPSHOT_VMSTATE_VERSION,
};
use lnx::stamps::FileText;
use lnx::trace::{trace_integer, trace_text, TraceEvent, TraceSequence, TraceValue};

const MAX_MESSAGE_SIZE: u32 = 1024 * 1024;
const PROTOCOL_VERSION: u16 = 9;

fn temp_layout(base: &str, instance: &str) -> Layout {
    let instance_dir = join(&join(base, "instances"), instance);
    Layout {
        base: base.to_string(),
        instance: instance.to_string(),
        kernel: join(base, "vmlinuz"),
        rootfs: join(&instance_dir, "rootfs.ext4"),
        instance_dir: instance_dir.clone(),
        snapshot_dir: join(&instance_dir, "memory-snapshots"),
        checkpoint_dir: join(&instance_dir, "checkpoints"),
        vm_initialized: join(&instance_dir, "vm-initialized"),
        run_dir: instance_dir.clone(),
        console_log: join(&instance_dir, "console.log"),
    }
}

fn found(text: &str) -> FileText {
    FileText::Found(text.to_string())
}

fn stat(size: u64) -> StatRead {
    StatRead::Found(FileStat {
        size,
        modified_unix_nanos: Some(100_000_000_000),
        dev: 1,
        ino: 2,
        blocks: 8,
    })
}

fn stats() -> StateStats {
    StateStats {
        vmstate: stat(40),
        pages: stat(5),
        rootfs: stat(4096),
    }
}

fn seconds(n: i128) -> i128 {
    n * 1_000_000_000
}

fn vmstate_header(version: u32, memory_bytes: u64, vcpu_count: u32) -> Vec<u8> {
    let mut header = vec![0u8; 40];
    header[0..8].copy_from_slice(b"LKRNSS01");
    header[8..12].copy_from_slice(&version.to_le_bytes());
    header[16..24].copy_from_slice(&memory_bytes.to_le_bytes());
    header[32..36].copy_from_slice(&vcpu_count.to_le_bytes());
    header
}

#[test]
fn prepare_restore_clones_snapshot_into_bounded_work_dir() {
    let layout = temp_layout("/tmp/restore-snapshot-clone", "default");
    let snapshot = join(&layout.snapshot_dir, "latest");
    let times = SnapshotTimes {
        rootfs: seconds(100),
        pages: seconds(101),
        vmstate: seconds(101),
    };
    assert!(validate_restore_snapshot_rootfs(&snapshot, true, &Ok(()), &Ok(times)).is_ok());

    let restore = prepared_restore(&layout, Some("snapshot-test"), "other");

    assert_eq!(
        restore.snapshot,
        join(&layout.snapshot_dir, RESTORE_WORK_SNAPSHOT)
    );
    assert_eq!(restore.rootfs, join(&restore.snapshot, "rootfs.ext4"));
    assert_eq!(restore.generation_id, "snapshot-test");
    assert!(snapshot_restore_files().contains(&"vmstate.bin"));
    assert!(snapshot_restore_files().contains(&"pages.img"));
    assert!(snapshot_restore_files().contains(&"rootfs.ext4"));
    assert_ne!(restore.rootfs, join(&snapshot, "rootfs.ext4"));
}

#[test]
fn snapshot_lifecycle_manifest_records_generation_and_file_state() {
    let layout = temp_layout("/tmp/snapshot-lifecycle-meta", "default");
    let manifest = snapshot_lifecycle_manifest(
        "snapshot-test",
        "run-test",
        123,
        &layout.rootfs,
        &stats(),
    );

    assert!(manifest.contains("version=1\n"));
    assert!(manifest.contains("generation_id=snapshot-test\n"));
    assert!(manifest.contains("source_run_id=run-test\n"));
    assert!(manifest.contains("vmstate.bin.size="));
    assert!(manifest.contains("pages.img.size="));
    assert!(manifest.contains("rootfs.ext4.size="));
    assert_eq!(
        read_snapshot_generation_id(&manifest).as_deref(),
        Some("snapshot-test")
    );
}

#[test]
fn restore_rootfs_clone_log_includes_snapshot_generation() {
    let layout = temp_layout("/tmp/restore-rootfs-log", "default");
    let snapshot = join(&layout.snapshot_dir, "latest");
    let manifest = snapshot_lifecycle_manifest(
        "snapshot-test",
        "run-test",
        123,
        &layout.rootfs,
        &stats(),
    );
    let own = snapshot_generation_id(&snapshot, Some(&manifest), &stats());
    let restore = prepared_restore(&layout, None, &own);

    let log = restore_clone_line(&snapshot, &restore);
    assert!(log.contains("snapshot.restore.clone generation_id=snapshot-test"));
    assert!(log.contains(&format!("source={}", snapshot)));
    assert!(log.contains(&format!(
        "work={}",
        join(&layout.snapshot_dir, RESTORE_WORK_SNAPSHOT)
    )));
}

#[test]
fn snapshot_publish_replaces_latest_without_accumulating_temp_dirs() {
    let layout = temp_layout("/tmp/snapshot-publish", "default");
    let latest = join(&layout.snapshot_dir, "latest");
    assert!(snapshot_publish_temp(&latest).is_ok());
    assert!(snapshot_publish_previous(&latest).is_ok());
    let mut latest_dir = Some("old");
    let mut next_dir = Some("new");
    let mut previous_dir: Option<&str> = None;
    for op in publish_plan(true) {
        match op {
            DirOp::RemovePrevious => previous_dir = None,
            DirOp::RemoveNext => next_dir = None,
            DirOp::SetAside => previous_dir = latest_dir.take(),
            DirOp::Publish => latest_dir = next_dir.take(),
            DirOp::Recover => latest_dir = previous_dir.take(),
        }
    }
    assert_eq!(latest_dir, Some("new"));
    assert!(next_dir.is_none());
    assert!(previous_dir.is_none());
}

#[test]
fn snapshot_runtime_cleanup_removes_only_fixed_work_and_publish_dirs() {
    let layout = temp_layout("/tmp/snapshot-cleanup", "default");
    let cleanup =
        cleanup_snapshot_runtime_state(&layout, true, false, None, true, true, true).unwrap();
    assert!(cleanup.work);
    assert!(!cleanup.marker);
    assert!(cleanup.dirs.contains(&DirOp::RemoveNext));
    assert!(cleanup.dirs.contains(&DirOp::RemovePrevious));
    assert_eq!(cleanup.dirs.len(), 2);
}

#[test]
fn snapshot_runtime_cleanup_preserves_active_restore_work() {
    let layout = temp_layout("/tmp/snapshot-active-restore-work", "default");
    let marker = marker_content("snapshot-recovery");
    let error = cleanup_snapshot_runtime_state(
        &layout,
        true,
        true,
        Some(&marker),
        true,
        false,
        false,
    )
    .expect_err("active restore work must not be removed");

    assert!(error
        .message()
        .contains("refusing to delete recoverable state"));
    assert!(error.message().contains("snapshots clear"));
    assert_eq!(error.generation, "generation_id=snapshot-recovery");
}

#[test]
fn clearing_active_marker_allows_restore_work_cleanup() {
    let layout = temp_layout("/tmp/snapshot-cleared-restore-work", "default");
    let cleanup = cleanup_snapshot_runtime_state(&layout, true, false, None, false, false, false)
        .expect("clean inactive restore work");
    assert!(cleanup.work);
}

#[test]
fn failed_final_snapshot_keeps_restore_work_marked_active() {
    assert_eq!(
        finish_restore_work_after_final_snapshot(true, false),
        AfterFinalSnapshot::KeepMarker
    );
    assert!(restore_work_is_active(true, true));
}

#[test]
fn successful_final_snapshot_clears_restore_work_marker() {
    assert_eq!(
        finish_restore_work_after_final_snapshot(true, true),
        AfterFinalSnapshot::ClearMarker
    );
    assert!(!restore_work_is_active(true, false));
}

#[test]
fn final_snapshot_outcome_round_trips_success_and_failure() {
    let layout = temp_layout("/tmp/final-snapshot-outcome", "default");
    let pid = 4711u32;

    let success = read_final_snapshot_outcome(
        &layout,
        &OutcomeText::Found(finished_outcome_content(pid, None)),
    )
    .expect("read successful outcome")
    .expect("successful outcome");
    assert_eq!(success.pid, pid);
    assert!(!success.pending);
    assert!(success.succeeded);
    assert_eq!(success.error, None);

    let pending = read_final_snapshot_outcome(
        &layout,
        &OutcomeText::Found(final_snapshot_outcome_content(
            pid,
            OutcomeStatus::Pending,
            None,
        )),
    )
    .expect("read pending outcome")
    .expect("pending outcome");
    assert!(pending.pending);
    assert!(!pending.succeeded);

    let failure = read_final_snapshot_outcome(
        &layout,
        &OutcomeText::Found(finished_outcome_content(pid, Some("snapshot exploded"))),
    )
    .expect("read failed outcome")
    .expect("failed outcome");
    assert!(!failure.pending);
    assert!(!failure.succeeded);
    assert_eq!(failure.error.as_deref(), Some("snapshot_exploded"));

    assert_eq!(
        read_final_snapshot_outcome(&layout, &OutcomeText::Missing).expect("read cleared outcome"),
        None
    );
}

#[test]
fn failed_or_pending_final_snapshot_outcome_blocks_the_next_start() {
    let layout = temp_layout("/tmp/final-snapshot-outcome-blocks-start", "default");
    let recorded = read_final_snapshot_outcome(
        &layout,
        &OutcomeText::Found(finished_outcome_content(1, Some("snapshot failed"))),
    )
    .unwrap();
    let failed = validate_restore_work_for_command(&layout, false, false, false, None, &recorded)
        .expect_err("failed outcome must block the next start");
    let CommandBlocked::Outcome(failed) = failed else {
        panic!("blocked by something else");
    };
    assert!(failed.message().contains("final snapshot failed"));
    assert!(failed.message().contains("snapshots clear"));

    let recorded = read_final_snapshot_outcome(
        &layout,
        &OutcomeText::Found(final_snapshot_outcome_content(
            1,
            OutcomeStatus::Pending,
            None,
        )),
    )
    .unwrap();
    let pending = validate_restore_work_for_command(&layout, false, false, false, None, &recorded)
        .expect_err("pending outcome must block the next start");
    let CommandBlocked::Outcome(pending) = pending else {
        panic!("blocked by something else");
    };
    assert!(pending.message().contains("did not finish reporting"));
    assert!(pending.message().contains("snapshots clear"));
}

#[test]
fn final_snapshot_failure_survives_split_run_directory_recreation() {
    let mut layout = temp_layout("/tmp/final-snapshot-outcome-split-run-dir", "default");
    layout.run_dir = join("/tmp/final-snapshot-outcome-split-run-dir", "ephemeral-run/default");
    let recorded = read_final_snapshot_outcome(
        &layout,
        &OutcomeText::Found(finished_outcome_content(1, Some("snapshot failed"))),
    )
    .unwrap();
    let error = validate_restore_work_for_command(&layout, false, false, false, None, &recorded)
        .expect_err("persistent failed outcome blocks after run-dir loss");
    let CommandBlocked::Outcome(error) = error else {
        panic!("blocked by something else");
    };
    assert!(error.message().contains("final snapshot failed"));
    assert_eq!(
        outcome_path(&layout),
        join(&layout.snapshot_dir, FINAL_SNAPSHOT_OUTCOME)
    );
}

#[test]
fn restore_snapshot_rootfs_newer_than_memory_is_rejected() {
    let layout = temp_layout("/tmp/restore-rootfs-stale", "default");
    let snapshot = join(&layout.snapshot_dir, "latest");
    let times = SnapshotTimes {
        pages: seconds(100),
        vmstate: seconds(100),
        rootfs: seconds(103),
    };

    let err = validate_restore_snapshot_rootfs(&snapshot, true, &Ok(()), &Ok(times)).unwrap_err();

    assert!(matches!(err, RestoreRefusal::Incoherent { .. }));
    assert!(err
        .message()
        .contains("snapshot rootfs was modified after memory state was captured"));
}

#[test]
fn preflight_host_share_cwd_reports_hidden_working_directory() {
    let home = "/tmp/hidden-cwd/home";
    let cwd = join(home, "src/project");
    let shares = vec![ShareState {
        share_root: home.to_string(),
        covering_whiteout: Some("src".to_string()),
    }];

    let err = preflight_host_share_cwd_with_home(&cwd, false, true, &shares).unwrap_err();
    let message = err.message();

    assert!(message.contains("working directory is hidden"));
    assert!(message.contains("lnx fs unshare --remove"));
    assert!(message.contains(&join(home, "src")));
}

#[test]
fn preflight_host_share_cwd_allows_descendant_whiteout_namespace() {
    let home = "/tmp/cwd-namespace/home";
    let cwd = join(home, "src/project");
    let shares = vec![ShareState {
        share_root: home.to_string(),
        covering_whiteout: None,
    }];

    preflight_host_share_cwd_with_home(&cwd, false, true, &shares).unwrap();
}

#[test]
fn snapshot_vm_config_returns_none_when_vmstate_is_absent() {
    assert!(snapshot_vm_config("/tmp/snapshot-missing", &HeaderRead::Missing)
        .expect("read config")
        .is_none());
}

#[test]
fn snapshot_vm_config_parses_header_and_matches_config() {
    let header = vmstate_header(SNAPSHOT_VMSTATE_VERSION, 4 * 1024 * 1024 * 1024, 2);

    let config = snapshot_vm_config("/tmp/snapshot-header", &HeaderRead::Read(header))
        .expect("read config")
        .expect("config present");

    assert_eq!(config.version, SNAPSHOT_VMSTATE_VERSION);
    assert_eq!(config.vcpu_count, 2);
    assert_eq!(config.memory_mib(), 4096);
    assert!(config.matches(2, 4096));
    assert!(!config.matches(1, 4096));
    assert!(!config.matches(2, 8192));
}

#[test]
fn agent_reader_failure_notifies_waiting_clients() {
    let channel_id = 0xabcddcba_u64;
    let mut broker = Broker::new(false);
    broker.reserve();
    assert_eq!(broker.register(channel_id), Registration::Open);
    assert_eq!(broker.active_count(), 1);

    let dropped = broker.drain();

    assert_eq!(dropped.len(), 1);
    assert_eq!(broker.active_count(), 0);
    assert_eq!(broker.channel_count(), 0);
    let channel = dropped.into_iter().next().expect("client error");
    match drain_notice(channel, "guest agent disconnected before command completed") {
        Message::Error {
            channel_id: id,
            message,
        } => {
            assert_eq!(id, channel_id);
            assert!(message.contains("guest agent disconnected"));
        }
        other => panic!("expected client error, got {other:?}"),
    }
}

#[test]
fn broker_shutdown_closes_registration_gate_before_draining_clients() {
    let channel_id = 0x1234_u64;
    let mut broker = Broker::new(false);
    broker.reserve();
    assert_eq!(broker.register(channel_id), Registration::Open);

    let dropped = broker.begin_shutdown();

    assert!(broker.is_stopping());
    assert_eq!(dropped.len(), 1);
    assert_eq!(broker.active_count(), 0);
    assert_eq!(broker.channel_count(), 0);
    let channel = dropped.into_iter().next().expect("shutdown error");
    assert!(matches!(
        drain_notice(channel, "VM owner is stopping after a final snapshot"),
        Message::Error { channel_id: id, .. } if id == channel_id
    ));
    broker.reserve();
    assert_eq!(broker.register(0x5678), Registration::Stopping);
}

#[test]
fn fresh_owner_slot_removes_stale_bootstrap_lock() {
    let owner = found("4711");
    let stale = bootstrap_lock_is_stale(&owner, &FileText::Missing, ProcessProbe::Gone, 0);
    assert!(stale);
    assert_eq!(
        owner_slot_step(true, stale, Some(4711), 0),
        OwnerSlot::Ended(4711)
    );
    let layout = temp_layout("/tmp/fresh-owner-stale-lock", "vm");
    let outcome = match acknowledge_final_snapshot_outcome(4711, OutcomeFile::Missing) {
        Acknowledge::Create { content } => {
            read_final_snapshot_outcome(&layout, &OutcomeText::Found(content))
        }
        other => panic!("stale owner outcome is not put in place: {other:?}"),
    };
    assert_eq!(
        validate_or_record_final_snapshot_failure("vm", 4711, &outcome),
        StoppedOwner::Fine
    );
    assert_eq!(
        acquire_decision(true, stale),
        Acquire::Take { remove_stale: true }
    );
    assert_eq!(
        owner_pid_from_lock(&found("4712"), ProcessProbe::Reached),
        Some(4712)
    );
}

#[test]
fn validated_bootstrap_reclaims_a_dead_maintenance_lease() {
    let stale = bootstrap_lock_is_stale(
        &FileText::Missing,
        &found("4711"),
        ProcessProbe::Gone,
        0,
    );
    assert!(stale);
    assert_eq!(
        acquire_decision(true, stale),
        Acquire::Take { remove_stale: true }
    );
}

#[test]
fn fresh_owner_slot_replace_stops_recorded_owner() {
    let child = 4711;
    let (action, state) = replace_step(
        Replacing::Begin,
        ReplaceView {
            owner: Some(child),
            stale: false,
            alive: true,
            now: 1000,
        },
    );
    assert_eq!(action, ReplaceAction::Terminate(child));
    let (action, state) = replace_step(
        state,
        ReplaceView {
            owner: None,
            stale: false,
            alive: true,
            now: 1100,
        },
    );
    assert_eq!(action, ReplaceAction::Wait);
    let (action, state) = replace_step(
        state,
        ReplaceView {
            owner: None,
            stale: false,
            alive: false,
            now: 1200,
        },
    );
    assert_eq!(action, ReplaceAction::Clean { lock: true });
    assert_eq!(state, Replacing::Done);
}

#[test]
fn bootstrap_lock_stale_reclaim_takes_ownership() {
    // A process with the number 0 is never alive.
    let stale = bootstrap_lock_is_stale(
        &found("0"),
        &FileText::Missing,
        ProcessProbe::Reached,
        0,
    );
    assert!(stale);
    assert_eq!(
        acquire_decision(true, stale),
        Acquire::Take { remove_stale: true }
    );
}

#[test]
fn bootstrap_lock_live_lock_is_not_reclaimed() {
    let stale = bootstrap_lock_is_stale(
        &found("4711"),
        &FileText::Missing,
        ProcessProbe::Reached,
        0,
    );
    assert!(!stale);
    assert_eq!(acquire_decision(true, stale), Acquire::Busy);
}

#[test]
fn stale_lock_removal_rechecks_after_lease_replacement() {
    let seen_before = bootstrap_lock_is_stale(
        &found("0"),
        &FileText::Missing,
        ProcessProbe::Gone,
        0,
    );
    assert!(seen_before);
    let seen_again = bootstrap_lock_is_stale(
        &found("4711"),
        &FileText::Missing,
        ProcessProbe::Reached,
        0,
    );
    assert!(!remove_stale_decision(true, seen_again));
}

/// Lets processes ask for a lock in turn, and counts those that get it.
fn winners(first_pid: &str, is_stale: fn(&FileText, ProcessProbe) -> bool) -> usize {
    let mut holder = found(first_pid);
    let mut winners = 0;
    for pid in 1..=8 {
        let probe = if holder == found(first_pid) {
            ProcessProbe::Gone
        } else {
            ProcessProbe::Reached
        };
        if let Acquire::Take { .. } = acquire_decision(true, is_stale(&holder, probe)) {
            holder = found(&pid.to_string());
            winners += 1;
        }
    }
    winners
}

#[test]
fn bootstrap_lock_concurrent_stale_reclaim_has_single_winner() {
    assert_eq!(
        winners("0", |owner, probe| bootstrap_lock_is_stale(
            owner,
            &FileText::Missing,
            probe,
            0
        )),
        1
    );
}

#[test]
fn owner_start_lock_concurrent_stale_reclaim_has_single_winner() {
    assert_eq!(
        winners("0", |starter, probe| owner_start_lock_is_stale(
            starter, probe, 0
        )),
        1
    );
}

#[test]
fn snapshot_rootfs_promotion_replaces_cold_boot_rootfs() {
    let layout = temp_layout("/tmp/promote-rootfs", "vm");
    let snapshot = join(&layout.snapshot_dir, "latest");
    let plan =
        promote_snapshot_rootfs(&snapshot, &layout.rootfs, true, &Ok(())).expect("promote");
    assert_eq!(
        plan,
        PromotePlan::Copy {
            source: join(&snapshot, "rootfs.ext4"),
            temp: join(&layout.instance_dir, ".rootfs.ext4.promote"),
        }
    );
}

#[test]
fn snapshot_rootfs_promotion_rejects_ext4_errors() {
    let layout = temp_layout("/tmp/promote-rootfs-errors", "vm");
    let snapshot = join(&layout.snapshot_dir, "latest");
    let error = promote_snapshot_rootfs(
        &snapshot,
        &layout.rootfs,
        true,
        &Err("snapshot rootfs is marked with ext4 errors".to_string()),
    )
    .expect_err("bad snapshot rootfs should not be promoted");
    let PromoteError::Unhealthy { error } = error else {
        panic!("refused for something else");
    };
    assert!(error.contains("marked with ext4 errors"));
}

fn test_launch_metadata(
    host_home: &str,
    outside_home_cwd: Option<&str>,
    no_host_shares: bool,
    host_share_cache: LaunchHostShareCache,
    vhost_user_fs: Vec<LaunchVhostUserFsMount>,
) -> LaunchMetadata {
    LaunchMetadata {
        version: LAUNCH_METADATA_VERSION,
        owner_args: vec!["lnx".to_string(), "_vm-owner".to_string()],
        compatibility: LaunchCompatibility { host_share_cache },
        shares: LaunchShares {
            no_host_shares,
            host_home: if no_host_shares {
                None
            } else {
                Some(host_home.to_string())
            },
            outside_home_cwd: if no_host_shares {
                None
            } else {
                outside_home_cwd.map(|cwd| cwd.to_string())
            },
        },
        vhost_user_fs,
    }
}

fn test_host_share_cache(dax: bool) -> LaunchHostShareCache {
    LaunchHostShareCache { dax }
}

#[test]
fn launch_metadata_records_vhost_user_fs_and_restart_args() {
    let current = test_launch_metadata(
        "/Users/ramon",
        None,
        false,
        test_host_share_cache(false),
        vec![LaunchVhostUserFsMount {
            tag: "testfs".to_string(),
            mount: "/mnt/testfs".to_string(),
            socket: "/tmp/testfs.sock".to_string(),
            read_only: true,
        }],
    );
    let record = LaunchRead::Found(current.clone());
    assert_eq!(snapshot_launch_incompatibility(&record, &current), None);

    let mut changed_socket = current.clone();
    changed_socket.vhost_user_fs[0].socket = "/tmp/other.sock".to_string();
    assert_eq!(
        snapshot_launch_incompatibility(&record, &changed_socket),
        Some(
            "share_mismatch: vhost-user-fs: snapshot=testfs:/mnt/testfs:/tmp/testfs.sock:ro current=testfs:/mnt/testfs:/tmp/other.sock:ro"
                .to_string()
        )
    );
}

#[test]
fn snapshot_launch_compatibility_requires_matching_json() {
    let current = test_launch_metadata(
        "/Users/ramon",
        None,
        false,
        test_host_share_cache(false),
        Vec::new(),
    );

    assert_eq!(
        snapshot_launch_incompatibility(&LaunchRead::Missing, &current),
        Some("launch_metadata: snapshot has no launch.json".to_string())
    );

    let record = LaunchRead::Found(current.clone());
    assert_eq!(snapshot_launch_incompatibility(&record, &current), None);

    let mut drifted_home = current.clone();
    drifted_home.shares.host_home = Some("/home/ramon".to_string());
    assert_eq!(
        snapshot_launch_incompatibility(&record, &drifted_home),
        Some("share_mismatch: home: snapshot=/Users/ramon current=/home/ramon".to_string())
    );

    let disabled = test_launch_metadata(
        "/Users/ramon",
        None,
        true,
        test_host_share_cache(false),
        Vec::new(),
    );
    let record = LaunchRead::Found(disabled.clone());
    assert_eq!(snapshot_launch_incompatibility(&record, &disabled), None);
    assert_eq!(
        snapshot_launch_incompatibility(&record, &current),
        Some(
            "share_mismatch: host-shares: snapshot=disabled current=enabled; home: snapshot=<absent> current=/Users/ramon"
                .to_string()
        )
    );

    let record = LaunchRead::Found(current.clone());
    let mut dax_current = current.clone();
    dax_current.compatibility.host_share_cache = test_host_share_cache(true);
    assert_eq!(
        snapshot_launch_incompatibility(&record, &dax_current),
        Some("share_mismatch: host-share-cache: snapshot=nodax current=dax".to_string())
    );
}

#[test]
fn default_restore_version_matching_reads_launch_metadata() {
    // No launch metadata: leave the decision to the general snapshot check.
    assert!(default_restore_version_matches(&LaunchRead::Missing));

    let current = test_launch_metadata(
        "/Users/ramon",
        None,
        true,
        test_host_share_cache(false),
        Vec::new(),
    );
    assert!(default_restore_version_matches(&LaunchRead::Found(
        current.clone()
    )));

    // A version-1 snapshot may carry the nix package-store virtiofs device
    // and must be rejected instead of restoring implicitly.
    let mut legacy = current;
    legacy.version = 1;
    assert!(!default_restore_version_matches(&LaunchRead::Found(legacy)));
}

#[test]
fn default_restore_refresh_replaces_a_pre_lock_snapshot_observation() {
    let layout = temp_layout("/tmp/default-restore-refresh", "vm");
    let stale = join(&layout.checkpoint_dir, "stale");
    let latest = join(&layout.snapshot_dir, "latest");
    let mut config = RunConfig {
        layout: layout.clone(),
        command: vec!["true".to_string()],
        cwd: "/tmp/default-restore-refresh".to_string(),
        cpus: 2,
        memory_mib: 4096,
        nested_kvm: false,
        restore_snapshot: Some(stale),
        restore_latest_if_available: true,
        forwards: Vec::new(),
        snapshot_output: Some(join(&layout.checkpoint_dir, "output")),
        run_as_root: false,
        no_host_shares: true,
        vhost_user_fs: Vec::new(),
        reuse_owner: true,
        deterministic: None,
        trace_events: false,
    };

    refresh_default_restore_snapshot(&mut config, true);
    assert_eq!(config.restore_snapshot.as_deref(), Some(latest.as_str()));

    refresh_default_restore_snapshot(&mut config, false);
    assert!(config.restore_snapshot.is_none());
}

#[test]
fn snapshot_launch_compatibility_tolerates_cwd_share_changes() {
    let snapshot = test_launch_metadata(
        "/Users/ramon",
        None,
        false,
        test_host_share_cache(false),
        Vec::new(),
    );
    let current = test_launch_metadata(
        "/Users/ramon",
        Some("/private/tmp"),
        false,
        test_host_share_cache(false),
        Vec::new(),
    );

    assert_eq!(
        snapshot_launch_incompatibility(&LaunchRead::Found(snapshot), &current),
        None
    );
}

#[test]
fn snapshot_share_layout_reads_recorded_launch_metadata() {
    let metadata = test_launch_metadata(
        "/Users/ramon",
        Some("/tmp/build"),
        false,
        test_host_share_cache(false),
        Vec::new(),
    );

    let layout = snapshot_share_layout(metadata.clone());

    assert_eq!(layout.metadata, metadata);
    assert_eq!(
        layout.layout,
        ShareLayout {
            host_home: "/Users/ramon".to_string(),
            outside_home_cwd: Some("/tmp/build".to_string()),
            no_host_shares: false,
        }
    );
}

#[test]
fn snapshot_deterministic_compatibility_requires_matching_mode_and_seed() {
    let disabled = deterministic_stamp_content(None);
    let seed_a = DeterministicConfig {
        seed: "seed-a".to_string(),
    };
    let seed_b = DeterministicConfig {
        seed: "seed-b".to_string(),
    };
    let enabled_a = deterministic_stamp_content(Some(&seed_a));
    let enabled_b = deterministic_stamp_content(Some(&seed_b));

    assert_eq!(
        snapshot_deterministic_incompatibility(&FileText::Missing, &disabled),
        None,
        "legacy snapshots without deterministic stamp remain nondeterministic-compatible"
    );
    assert_eq!(
        snapshot_deterministic_incompatibility(&FileText::Missing, &enabled_a),
        Some("snapshot has no deterministic compatibility stamp".to_string())
    );

    let stamp = FileText::Found(enabled_a.clone());
    assert_eq!(
        snapshot_deterministic_incompatibility(&stamp, &enabled_a),
        None
    );
    assert_eq!(
        snapshot_deterministic_incompatibility(&stamp, &enabled_b),
        Some("seed: snapshot=seed-a current=seed-b".to_string())
    );
    assert_eq!(
        snapshot_deterministic_incompatibility(&stamp, &disabled),
        Some(
            "deterministic: snapshot=enabled-v1 current=disabled-v1; seed: snapshot=seed-a current=<absent>; initial_realtime_unix_secs: snapshot=0 current=<absent>; clock_state: snapshot=deterministic-clock-state-v1 current=<absent>; restore_timer_rebase: snapshot=disabled-v1 current=<absent>; virtual_counter: snapshot=kvm-controlled-counter-v1 current=<absent>; kvm_halt_poll: snapshot=disabled-v1 current=<absent>; kvm_wfi_exit: snapshot=enabled-v1 current=<absent>; host_activity_gate: snapshot=broker-and-device-idle-v1 current=<absent>; rtc: snapshot=deterministic-zero-v1 current=<absent>; trng: snapshot=deterministic-smccc-v1 current=<absent>; virtio_rng: snapshot=deterministic-stateless-v1 current=<absent>; vsock_timesync: snapshot=disabled-v1 current=<absent>; restore_entropy: snapshot=sha256-seed-v1 current=<absent>; exec_user: snapshot=uid1000-gid1000-lnxuser current=<absent>; exec_env: snapshot=c-utf8-utc-v1 current=<absent>; exec_tty: snapshot=none-24x80-xterm-256color-v1 current=<absent>; network: snapshot=gvproxy-fixed-v1 current=<absent>"
                .to_string()
        )
    );
}

#[test]
fn deterministic_time_configures_libkrun_restore_rebase_policy() {
    assert_eq!(krun_deterministic_time(true), Some("1"));
    assert!(krun_deterministic_time(false).is_none());
}

#[test]
fn deterministic_clock_state_round_trips_and_restores_from_snapshot() {
    let state = DeterministicClockState {
        realtime_unix_nanos: 12,
        monotonic_nanos: 34,
        counter_frequency_hz: 1_000_000_000,
        event_sequence: 56,
        timer_jump_count: 7,
        last_timer_deadline_ticks: 890,
    };
    let content = deterministic_clock_state_content(&state);

    assert_eq!(parse_deterministic_clock_state(&content).unwrap(), state);
    assert_eq!(
        deterministic_clock_state_for_start(
            Some(&DeterministicConfig {
                seed: "seed42".to_string()
            }),
            Some("/tmp/deterministic-clock"),
            &FileText::Found(content)
        )
        .unwrap(),
        Some(state)
    );
}

#[test]
fn deterministic_clock_event_sequence_tracks_trace_sequence() {
    let mut trace = TraceSequence::new();
    trace.set_next_sequence(7);
    assert_eq!(trace.record(true), 7);

    let content = deterministic_clock_state_content(&initial_deterministic_clock_state());
    let state = parse_deterministic_clock_state(&content).expect("parse state");
    let state = with_event_sequence(state, trace.next_sequence());
    assert_eq!(state.event_sequence, 8);
    assert_eq!(state.timer_jump_count, 0);
    assert_eq!(state.last_timer_deadline_ticks, 0);
}

#[test]
fn deterministic_timer_jumps_import_into_trace_once() {
    let file = "deadline_ticks=10 counter_frequency_hz=1000000000 deadline_nanos=10\n";
    let size = file.len() as u64;

    let start = timer_jump_start(None, size);
    let first = import_timer_jumps(&file[start as usize..], start);
    let start = timer_jump_start(Some(&first.cursor.to_string()), size);
    let second = import_timer_jumps(&file[start as usize..], start);

    assert_eq!(first.jumps.len() + second.jumps.len(), 1);
    assert_eq!(first.jumps[0].deadline_nanos, 10);
}

#[test]
fn deterministic_restore_requires_clock_state() {
    let err = deterministic_clock_state_for_start(
        Some(&DeterministicConfig {
            seed: "seed42".to_string(),
        }),
        Some("/tmp/deterministic-clock-missing"),
        &FileText::Missing,
    )
    .unwrap_err()
    .message();

    assert!(err.contains("deterministic-clock.state"));
}

#[test]
fn deterministic_exec_identity_and_env_are_host_independent() {
    let host = || HostUser {
        uid: 501,
        gid: 20,
        group: "staff".to_string(),
    };
    assert_eq!(
        exec_identity(false, true, host()),
        (
            DETERMINISTIC_EXEC_UID,
            DETERMINISTIC_EXEC_GID,
            DETERMINISTIC_EXEC_GROUP.to_string()
        )
    );
    assert_eq!(exec_identity(true, true, host()), (0, 0, String::new()));
    assert_eq!(
        exec_env(
            true,
            &vec![("LANG".to_string(), "de_DE.UTF-8".to_string())],
            Some("Europe/Berlin")
        ),
        vec![
            ("TERM".to_string(), DETERMINISTIC_TERM.to_string()),
            ("LANG".to_string(), "C.UTF-8".to_string()),
            ("LC_ALL".to_string(), "C.UTF-8".to_string()),
            ("TZ".to_string(), "UTC".to_string()),
        ]
    );
}

#[test]
fn zone_from_localtime_target_parses_zoneinfo_paths() {
    assert_eq!(
        zone_from_localtime_target("/var/db/timezone/zoneinfo/America/New_York"),
        Some("America/New_York".to_string())
    );
    assert_eq!(
        zone_from_localtime_target("/usr/share/zoneinfo/Europe/Berlin"),
        Some("Europe/Berlin".to_string())
    );
    assert_eq!(zone_from_localtime_target("/usr/share/zoneinfo/"), None);
    assert_eq!(zone_from_localtime_target("/etc/localtime.copy"), None);
}

#[test]
fn deterministic_stamp_records_network_policy() {
    let config = DeterministicConfig {
        seed: "seed42".to_string(),
    };
    let stamp = deterministic_stamp_content(Some(&config));

    assert!(stamp.contains("network=gvproxy-fixed-v1\n"));
    assert!(stamp.contains("exec_env=c-utf8-utc-v1\n"));
    assert!(stamp.contains("restore_entropy=sha256-seed-v1\n"));
    assert!(stamp.contains("clock_state=deterministic-clock-state-v1\n"));
    assert!(stamp.contains("restore_timer_rebase=disabled-v1\n"));
    assert!(stamp.contains("virtual_counter=kvm-controlled-counter-v1\n"));
    assert!(stamp.contains("kvm_halt_poll=disabled-v1\n"));
    assert!(stamp.contains("kvm_wfi_exit=enabled-v1\n"));
    assert!(stamp.contains("host_activity_gate=broker-and-device-idle-v1\n"));
    assert!(stamp.contains("rtc=deterministic-zero-v1\n"));
    assert!(stamp.contains("trng=deterministic-smccc-v1\n"));
    assert!(stamp.contains("virtio_rng=deterministic-stateless-v1\n"));
    assert!(stamp.contains("vsock_timesync=disabled-v1\n"));
}

#[test]
fn deterministic_restore_entropy_depends_only_on_seed() {
    let seed_a_first = deterministic_restore_entropy("seed-a");
    let seed_a_second = deterministic_restore_entropy("seed-a");
    let seed_b = deterministic_restore_entropy("seed-b");

    assert_eq!(seed_a_first.len(), RESTORE_ENTROPY_BYTES);
    assert_eq!(seed_a_first, seed_a_second);
    assert_ne!(seed_a_first, seed_b);
    assert!(seed_a_first.iter().any(|byte| *byte != 0));
}

#[test]
fn deterministic_request_ids_depend_on_seed_and_exec_context() {
    let command = vec!["pytest".to_string(), "-q".to_string()];
    let first = deterministic_exec_request_id("seed42", &command, "/", false, false, 1, 1);
    let second = deterministic_exec_request_id("seed42", &command, "/", false, false, 1, 1);
    let different_seed =
        deterministic_exec_request_id("other-seed", &command, "/", false, false, 1, 1);
    let different_command = deterministic_exec_request_id(
        "seed42",
        &vec!["pytest".to_string(), "-vv".to_string()],
        "/",
        false,
        false,
        1,
        1,
    );

    assert_ne!(first, 0);
    assert_eq!(first, second);
    assert_ne!(first, different_seed);
    assert_ne!(first, different_command);
    assert_eq!(
        deterministic_restore_sync_request_id("seed42"),
        deterministic_restore_sync_request_id("seed42")
    );
    assert_ne!(
        deterministic_restore_sync_request_id("seed42"),
        deterministic_restore_sync_request_id("other-seed")
    );
}

#[test]
fn initramfs_stamp_key_prefers_source_but_keeps_sha256_compatibility() {
    assert_eq!(
        initramfs_stamp_key("sha256=old-binary-hash\n"),
        Some("sha256=old-binary-hash".to_string())
    );
    assert_eq!(
        initramfs_stamp_key("sha256=old-binary-hash\nsource=guest-agent-source-hash\n"),
        Some("source=guest-agent-source-hash".to_string())
    );
    assert_eq!(initramfs_stamp_key("unrelated=true\n"), None);
}

#[test]
fn snapshot_initramfs_mismatch_is_a_hard_actionable_error() {
    let layout = temp_layout("/tmp/snapshot-initramfs-compatibility", "initramfs-test");
    let snapshot = join(&layout.snapshot_dir, "latest");
    let current = join(&layout.base, "initramfs.stamp");

    assert!(!snapshot_initramfs_is_compatible(
        &found("source=old\n"),
        &found("source=new\n")
    ));
    let error = validate_snapshot_initramfs_compatibility(
        &layout,
        &snapshot,
        &current,
        &found("source=old\n"),
        &found("source=new\n"),
        None,
        None,
    )
    .expect_err("reject incompatible initramfs");
    let message = error.message();
    assert!(message.contains("snapshot initramfs is incompatible"));
    assert!(message.contains("lnx --instance initramfs-test snapshots clear"));

    assert!(snapshot_initramfs_is_compatible(
        &found("source=old\n"),
        &found("source=old\n")
    ));
    validate_snapshot_initramfs_compatibility(
        &layout,
        &snapshot,
        &current,
        &found("source=old\n"),
        &found("source=old\n"),
        None,
        None,
    )
    .expect("accept compatible initramfs");
}

#[test]
fn explicit_snapshot_mismatch_does_not_advise_clearing_latest() {
    let base = "/tmp/explicit-snapshot-initramfs-compatibility";
    let layout = temp_layout(base, "initramfs-test");
    let snapshot = join(base, "explicit-snapshot");
    let current = join(base, "initramfs.stamp");

    let error = validate_snapshot_initramfs_compatibility(
        &layout,
        &snapshot,
        &current,
        &found("source=old\n"),
        &found("source=new\n"),
        None,
        None,
    )
    .expect_err("reject incompatible explicit snapshot");

    assert!(error.message().contains("provide a compatible snapshot"));
    assert!(error.message().contains("snapshots clear"));
    assert!(error.message().contains("retry without --snapshot"));
}

#[test]
fn snapshot_recovery_guidance_recognizes_symlink_to_latest() {
    let base = "/tmp/snapshot-guidance-symlink";
    let layout = temp_layout(base, "guidance-test");
    let latest = join(&layout.snapshot_dir, "latest");
    let alias = join(base, "latest-alias");

    let guidance =
        snapshot_restore_recovery_guidance(&layout, &alias, Some(&latest), Some(&latest));

    assert!(paths_refer_to_same_snapshot(
        &alias,
        &latest,
        Some(&latest),
        Some(&latest)
    ));
    assert!(guidance.contains("lnx --instance guidance-test snapshots clear"));
    assert!(!guidance.contains("retry without --snapshot"));
}

#[test]
fn snapshot_vm_config_rejects_bad_magic_and_version() {
    assert!(snapshot_vm_config("/tmp/snapshot-bad", &HeaderRead::Read(vec![0u8; 40])).is_err());

    let header = vmstate_header(SNAPSHOT_VMSTATE_VERSION + 97, 0, 0);
    assert!(snapshot_vm_config("/tmp/snapshot-bad", &HeaderRead::Read(header)).is_err());
}

#[test]
fn framed_message_round_trips_over_unix_stream() {
    let message = (3u32, 7u64, b"hello".to_vec());
    let body = postcard::to_allocvec(&message).expect("encode message");

    let frame = encode_frame(&body, MAX_MESSAGE_SIZE).expect("write message");
    let len = frame_length(&frame[..4], MAX_MESSAGE_SIZE).expect("read length") as usize;
    assert_eq!(frame.len(), 4 + len);
    let decoded: (u32, u64, Vec<u8>) = postcard::from_bytes(&frame[4..4 + len]).expect("decode");

    assert_eq!(decoded, message);
}

#[test]
fn framed_message_rejects_oversized_writes_and_reads() {
    let too_large = vec![0u8; MAX_MESSAGE_SIZE as usize + 1];
    assert!(encode_frame(&too_large, MAX_MESSAGE_SIZE).is_err());

    assert!(frame_length(&(MAX_MESSAGE_SIZE + 1).to_be_bytes(), MAX_MESSAGE_SIZE).is_err());
}

#[test]
fn broker_idle_ttl_defaults_to_immediate_shutdown() {
    assert_eq!(broker_idle_ttl_from_env(None), 0);
    assert_eq!(broker_idle_ttl_from_env(Some("nope")), 0);
}

#[test]
fn broker_idle_ttl_reads_milliseconds_from_env() {
    assert_eq!(broker_idle_ttl_from_env(Some("30000")), 30 * 1000);
}

#[test]
fn owner_idle_ttl_defaults_to_five_second_grace() {
    assert_eq!(owner_idle_ttl_from_env(None), 5 * 1000);
    assert_eq!(owner_idle_ttl_from_env(Some("nope")), 5 * 1000);
}

#[test]
fn owner_idle_ttl_reads_env_but_clamps_to_minimum() {
    assert_eq!(owner_idle_ttl_from_env(Some("30000")), 30 * 1000);
    assert_eq!(owner_idle_ttl_from_env(Some("0")), 250);
}

#[test]
fn debug_flag_parses_nodaemonreuse_token() {
    assert!(debug_flag_enabled_in(
        Some("trace,nodaemonreuse;other"),
        "nodaemonreuse"
    ));
    assert!(debug_flag_enabled_in(
        Some("trace nodaemonreuse"),
        "nodaemonreuse"
    ));
    assert!(!debug_flag_enabled_in(
        Some("trace-nodaemonreuse"),
        "nodaemonreuse"
    ));
    assert!(!debug_flag_enabled_in(None, "nodaemonreuse"));
}

#[test]
fn rootfs_backend_defaults_to_pmem() {
    assert_eq!(RootfsBackend::from_env(None).unwrap(), RootfsBackend::Pmem);
    assert_eq!(
        RootfsBackend::from_env(Some(String::new())).unwrap(),
        RootfsBackend::Pmem
    );
}

#[test]
fn rootfs_backend_rejects_block() {
    assert!(RootfsBackend::from_env(Some("block".to_string())).is_err());
}

#[test]
fn rootfs_backend_rejects_unknown_values() {
    assert!(RootfsBackend::from_env(Some("virtiofs".to_string())).is_err());
}

#[test]
fn forward_spec_round_trips_the_cli_format() {
    let forward = PortForward {
        listen_host: "127.0.0.1".to_string(),
        listen_port: 16081,
        guest_host: "localhost".to_string(),
        guest_port: 6080,
    };
    assert_eq!(forward_spec(&forward), "127.0.0.1:16081:localhost:6080");
}

#[test]
fn localhost_url_forward_keeps_loopback_family() {
    assert_eq!(
        localhost_url_forward("http://localhost:3773/pair"),
        Some(("127.0.0.1", 3773))
    );
    assert_eq!(
        localhost_url_forward("https://127.0.0.1:8443/callback"),
        Some(("127.0.0.1", 8443))
    );
    assert_eq!(
        localhost_url_forward("http://[::1]:5173/"),
        Some(("::1", 5173))
    );
    assert_eq!(localhost_url_forward("https://example.com:443/"), None);
}

#[test]
fn existing_broker_client_propagates_protocol_mismatch() {
    let err = broker_hello(
        PROTOCOL_VERSION,
        Some(Message::Hello {
            version: PROTOCOL_VERSION - 1,
        }),
    )
    .expect_err("protocol mismatch should fail fast");
    assert_eq!(
        after_connect_error(ConnectError::Hello(err)),
        AfterConnectError::Propagate {
            expected: PROTOCOL_VERSION,
            actual: PROTOCOL_VERSION - 1,
        }
    );
}

#[test]
fn existing_broker_client_treats_missing_hello_as_not_ready() {
    let err = broker_hello(PROTOCOL_VERSION, None).unwrap_err();
    assert_eq!(err, HelloError::Failed);
    assert_eq!(
        after_connect_error(ConnectError::Hello(err)),
        AfterConnectError::NotReady
    );
}

#[test]
fn guest_cwd_uses_host_path_under_home() {
    assert_eq!(guest_cwd("/Users/ramon/src/lnx"), "/Users/ramon/src/lnx");
}

#[test]
fn guest_cwd_uses_host_path_outside_home() {
    assert_eq!(guest_cwd("/tmp/build"), "/tmp/build");
}

#[test]
fn host_home_for_cwd_uses_mounted_macos_home() {
    assert_eq!(
        host_home_for_cwd("/Users/ramon/src/lnx", None).unwrap(),
        "/Users/ramon"
    );
}

#[test]
fn home_write_allowlist_is_relative_under_home() {
    assert_eq!(
        home_write_allowlist("/Users/ramon/src/lnx", "/Users/ramon"),
        vec!["src/lnx".to_string()]
    );
}

#[test]
fn home_write_allowlist_uses_dot_for_home_root() {
    assert_eq!(
        home_write_allowlist("/Users/ramon", "/Users/ramon"),
        vec![".".to_string()]
    );
}

#[test]
fn home_write_allowlist_is_empty_outside_home() {
    assert!(home_write_allowlist("/tmp/build", "/Users/ramon").is_empty());
}

#[test]
fn cwd_write_allowlist_allows_entire_outside_home_cwd_share() {
    assert_eq!(cwd_write_allowlist(), vec![".".to_string()]);
}

#[test]
fn restore_work_marker_lies_beside_the_work() {
    let layout = temp_layout("/tmp/marker", "default");
    assert_eq!(
        restore_work_active_marker(&layout),
        join(&layout.snapshot_dir, ".restore-work.active")
    );
}

#[test]
fn trace_log_stores_ordered_events_in_independent_sqlite_db() {
    let written = [
        TraceEvent {
            name: "vm_start_config",
            fields: vec![trace_text("seed", "seed42".to_string())],
        },
        TraceEvent {
            name: "guest_exit_status",
            fields: vec![trace_integer("status", 0)],
        },
    ];
    let mut numbers = TraceSequence::new();
    let events: Vec<(i64, TraceEvent)> = written
        .into_iter()
        .map(|event| (numbers.record(true), event))
        .collect();

    assert_eq!(events.len(), 2);
    assert_eq!(events[0].0, 0);
    assert_eq!(events[0].1.name, "vm_start_config");
    assert_eq!(events[1].0, 1);
    assert_eq!(events[1].1.name, "guest_exit_status");
    assert_eq!(events[0].1.fields[0].key, "seed");
    assert_eq!(
        events[0].1.fields[0].value,
        TraceValue::Text("seed42".to_string())
    );
    assert_eq!(events[1].1.fields[0].key, "status");
    assert_eq!(events[1].1.fields[0].value, TraceValue::Integer(0));
    assert_eq!(numbers.next_sequence(), 2);
}
