//! Messages, errors and exact values.
use lnx::bundle::{
    bundle_header, bundle_prefix, bundle_runtime_path_is_excluded, bundles_kernel,
    check_bundle_manifest, check_inflated, collect_sparse_bundle_file, deflate_extent,
    inflate_extent, BundleError, SparseBundleManifest,
};
use lnx::broker::{checkpoint_answer, snapshot_exit_answer};
use lnx::capture::{
    accept_step, capture_plan, checkpoint_plan, clock_stamp_copy, hello_timeout, ready_step, snapshot_request, unblock_step,
    AcceptSeen, AcceptStep, ClockFile, HandshakeError, ReadyRead, ReadyStep, StampCopy,
    UnblockStep, WaitSeen, FRAME_SNAPSHOT, SNAPSHOT_READY,
};
use lnx::cas::{
    cas_block_path, cas_session_dir, indexed_block, pack_block_stream, read_decoded_blocks,
    receive_block_stream, store_cas_block, write_cas_block_frame, StoreError, StreamError,
};
use lnx::compress::{decode_stream, Decoded, DecodeEnd};
use lnx::config::{
    owner_restart_args, validate_config, ConfigError, RunConfig, VhostUserFsMount,
};
use lnx::deterministic::{
    krun_deterministic_time, parse_deterministic_clock_state,
    validate_runtime_deterministic_compatibility, ClockStateError, DeterministicConfig,
};
use lnx::digest::{digest, sha256_hex};
use lnx::forwards::{forward_spec, localhost_url_forward, unprivileged, ForwardedPorts, PortForward};
use lnx::imports::{
    check_commit, check_imported, check_upload, content_is_sparse_bundle, header_bool,
    import_options, import_options_with, imported_source, installs_kernel, replaced_directories,
    required_blocks, snapshot_in_manifest, verify_cas_manifest_blocks_exist, Header, HeaderError,
    ImportHeaders, ImportRefusal, SnapshotInManifest, TargetSeen,
};
use lnx::instances::{
    build_instance_start_command, corrupt_lease_message, host_pids_for_instance, instance_pids,
    instance_size, instance_state, new_owner_message, start_command, start_existing_instance,
    start_failure_message, stop_failure_message, unpublished_message, AppState, FoundProcess,
    InstanceState, ServeConfig, StartRefusal, StopFailure,
};
use lnx::launch::{host_home_for_cwd, outside_home_cwd};
use lnx::locks::{
    guard_step, lock_dir_guard_path, owner_lease, process_alive, recorded_owner_pid_from_lock,
    signal_process_step, GuardStep, GuardTry, PidError, ProcessProbe, SignalResult, SignalStep,
};
use lnx::logs::{current_run_id, json_escape, lifecycle_id, timing_delta};
use lnx::names::{session_id_for_digest, validate_session_id, NameError};
use lnx::network::{
    bind_step, guest_env, gvproxy_log, gvproxy_socket, krun_socket, path_is_visible,
    wait_for_path_step, wait_timeout_message, BindSeen, BindStep, WaitStep,
};
use lnx::outcome::{
    outcome_temp_path, outcome_temp_step, parse_final_snapshot_outcome,
    validate_final_snapshot_outcome, CreateStep, Created, FinalSnapshotOutcome, OutcomeError,
    OutcomeFormatError,
};
use lnx::paths::{file_name, join, parent, strip_prefix, Layout};
use lnx::protocol::{mismatch_message, piped_input, FrameTooLarge, Message};
use lnx::publish::{sibling_dot_path, SiblingError};
use lnx::push::{
    cas_blocks_url, cas_commit_url, cas_session_url, cas_upload_url, check_push,
    check_stopped_copy, checkpoint_bundle_layout, checkpoint_result, checkpoint_wait_step,
    checkpointing_line, dedupe_line, human_bytes, not_removed_context, push_source,
    server_error_message, server_refusal, stored_line, upload_progress_frame, CheckpointResult,
    CheckpointWait, PushConfig, PushRefusal, PushSource,
};
use lnx::run::{console_hint, console_lines, log_tail, owner_exit_message, wants_fresh_owner};
use lnx::session::{exec_terminal, new_request_id, terminal_size, use_pty};
use lnx::settings::{
    agent_accept_timeout_from_env, host_timezone, krun_log_level, owner_idle_ttl,
    restore_proof_delay_from_env, RootfsBackend,
};
use lnx::snapshots::{
    legacy_snapshot_generation_id, promote_snapshot_rootfs, seed_checkpoint_from_base,
    snapshot_file_fingerprint, snapshot_vm_config, FileStat, HeaderRead, PromoteError,
    SeedPlan, StatRead, StateStats,
};
use lnx::sparse::{
    ficlone_can_fall_back, is_large_sparse_transfer, is_suspicious_dense_extent_report,
    sparse_file_extents, CloneError, ExtentError,
};
use lnx::stamps::FileText;
use lnx::start::kernel_cmdline;
use lnx::terminal::{
    broker_error_step, connect_context, handle_terminal_ws_message, input_messages, output_step,
    terminal_env, terminal_failed_text, terminal_request, BrokerInput, BrokerOutput,
    SocketMessage, TerminalResize, TerminalUser,
};
use lnx::trace::{trace_client_message, trace_open_url, TraceValue};
use lnx::vmnet::{interface_started, parse_subnet, pump_step, read_step, PumpRead, PumpStep, ReadStep, SubnetError};
use lnx::cas::{CasManifestBlock, CasManifestFile, CasUploadManifest, Span};

fn layout() -> Layout {
    let dir = "/base/instances/vm".to_string();
    Layout {
        base: "/base".to_string(),
        instance: "vm".to_string(),
        kernel: "/base/vmlinuz".to_string(),
        rootfs: join(&dir, "rootfs.ext4"),
        instance_dir: dir.clone(),
        snapshot_dir: join(&dir, "memory-snapshots"),
        checkpoint_dir: join(&dir, "checkpoints"),
        vm_initialized: join(&dir, "vm-initialized"),
        run_dir: dir.clone(),
        console_log: join(&dir, "console.log"),
    }
}

fn run_config() -> RunConfig {
    RunConfig {
        layout: layout(),
        command: vec!["true".to_string()],
        cwd: "/home/me/src".to_string(),
        cpus: 2,
        memory_mib: 4096,
        nested_kvm: true,
        restore_snapshot: None,
        restore_latest_if_available: false,
        forwards: vec![PortForward {
            listen_host: "127.0.0.1".to_string(),
            listen_port: 8080,
            guest_host: "127.0.0.1".to_string(),
            guest_port: 80,
        }],
        snapshot_output: None,
        run_as_root: false,
        no_host_shares: false,
        vhost_user_fs: vec![VhostUserFsMount {
            tag: "t".to_string(),
            mountpoint: "/mnt".to_string(),
            socket: "/s".to_string(),
            read_only: true,
        }],
        reuse_owner: true,
        deterministic: None,
        trace_events: false,
    }
}

// Sizes.

/// The text of a size, computed with floating-point numbers.
fn float_bytes(bytes: u64) -> String {
    let units = ["B", "KiB", "MiB", "GiB", "TiB"];
    let mut value = bytes as f64;
    let mut unit = 0;
    while value >= 1024.0 && unit < units.len() - 1 {
        value /= 1024.0;
        unit += 1;
    }
    if unit == 0 {
        format!("{bytes} {}", units[unit])
    } else if value >= 10.0 {
        format!("{value:.1} {}", units[unit])
    } else {
        format!("{value:.2} {}", units[unit])
    }
}

#[test]
fn sizes_read_as_with_floating_point_numbers() {
    assert_eq!(human_bytes(1536), "1.50 KiB");
    assert_eq!(human_bytes(10 * 1024 + 256), "10.2 KiB");
    assert_eq!(human_bytes(10 * 1024 + 768), "10.8 KiB");
    assert_eq!(human_bytes(u64::MAX), "16777216.0 TiB");
    let mut n: u64 = 1;
    for i in 0..4000u64 {
        assert_eq!(human_bytes(n), float_bytes(n), "{n}");
        n = n
            .wrapping_mul(6364136223846793005)
            .wrapping_add(1442695040888963407 + i);
        let m = n >> (i % 64);
        assert_eq!(human_bytes(m), float_bytes(m), "{m}");
    }
    for shift in 0..64 {
        for d in 0..5u64 {
            let m = (1u64 << shift).wrapping_add(d).wrapping_sub(2);
            assert_eq!(human_bytes(m), float_bytes(m), "{m}");
        }
    }
}

#[test]
fn progress_frames_go_there_and_back() {
    assert_eq!(upload_progress_frame(0), "=====               ");
    assert_eq!(upload_progress_frame(80 * 15), "               =====");
    assert_eq!(upload_progress_frame(80 * 29), " =====              ");
    assert_eq!(upload_progress_frame(80 * 30), "=====               ");
}

// Bundles and blocks.

#[test]
fn bundle_errors() {
    assert_eq!(bundle_header(b"LNX"), Err(BundleError::NoMagic));
    let mut prefix = bundle_prefix(b"{}");
    assert_eq!(bundle_header(&prefix), Ok(2));
    let magic = prefix[0];
    prefix[0] = 0;
    assert_eq!(bundle_header(&prefix), Err(BundleError::BadMagic));
    prefix[0] = magic;
    assert_eq!(bundle_header(&prefix[..10]), Err(BundleError::NoLength));
    let manifest = |version: u32, compression: Option<&str>, source: &str| SparseBundleManifest {
        version,
        source_instance: source.to_string(),
        compression: compression.map(|c| c.to_string()),
        files: Vec::new(),
    };
    assert!(check_bundle_manifest(&manifest(1, Some("zstd"), "a"), "a").is_ok());
    assert!(check_bundle_manifest(&manifest(1, None, "a"), "a").is_ok());
    assert_eq!(
        check_bundle_manifest(&manifest(2, None, "a"), "a"),
        Err(BundleError::Version { version: 2 })
    );
    assert_eq!(
        check_bundle_manifest(&manifest(1, Some("gzip"), "a"), "a"),
        Err(BundleError::Compression {
            name: "gzip".to_string()
        })
    );
    assert!(matches!(
        check_bundle_manifest(&manifest(1, None, "b"), "a"),
        Err(BundleError::Source { .. })
    ));
    assert!(matches!(
        check_inflated(vec![1, 2], "f", 0, 3),
        Err(BundleError::Inflated { .. })
    ));
    assert!(matches!(
        inflate_extent(b"no zstd at all", "f", 0, 3),
        Err(BundleError::Inflate { .. })
    ));
    let data = vec![5u8; 10_000];
    let packed = deflate_extent(&data).unwrap();
    assert!(packed.len() < data.len());
    assert_eq!(inflate_extent(&packed, "f", 0, 10_000), Ok(data));
    assert!(matches!(
        collect_sparse_bundle_file("/base", "/other/f", 0, 0, Vec::new()),
        Err(BundleError::NotBelow { .. })
    ));
    let f = collect_sparse_bundle_file("/base", "/base/instances/vm/f", 3, 0o100600, Vec::new())
        .unwrap();
    assert_eq!(f.relative, "instances/vm/f");
}

#[test]
fn runtime_files_are_not_bundled() {
    let l = layout();
    for name in [
        "broker.sock",
        "bootstrap.lock.d",
        "bootstrap.lock.d/owner.pid",
        "gvproxy.sock-krun.sock",
        ".lnx-fork-lease",
        ".lnx-descriptor-1",
        "memory-snapshots/.restore-work",
        "memory-snapshots/.latest.next",
        "memory-snapshots/.x.clear-1",
        "memory-snapshots/.final-snapshot.outcome.tmp-1-2-3",
    ] {
        assert!(
            bundle_runtime_path_is_excluded(&l, &join(&l.instance_dir, name)),
            "{name}"
        );
    }
    for name in [
        "rootfs.ext4",
        "memory-snapshots/latest",
        "memory-snapshots/final-snapshot.outcome",
        "checkpoints/.lnx-fork-lease",
    ] {
        assert!(
            !bundle_runtime_path_is_excluded(&l, &join(&l.instance_dir, name)),
            "{name}"
        );
    }
    assert!(bundles_kernel(&l, true));
    assert!(!bundles_kernel(&l, false));
}

#[test]
fn block_errors() {
    let hash = sha256_hex(b"x");
    assert_eq!(
        store_cas_block("zz", b"x"),
        Err(StoreError::Hash {
            value: "zz".to_string()
        })
    );
    assert_eq!(
        store_cas_block(&hash, &vec![0u8; 65537]),
        Err(StoreError::TooLarge { len: 65537 })
    );
    assert_eq!(
        store_cas_block(&hash, b"y").unwrap_err().message(),
        format!(
            "CAS block hash mismatch: expected {hash}, got {}",
            sha256_hex(b"y")
        )
    );
    assert_eq!(
        cas_block_path("/b", &hash).unwrap(),
        format!("/b/cas/sha256/{}/{hash}", &hash[..2])
    );
    assert_eq!(indexed_block(b"x"), Some(hash.clone()));
    assert_eq!(indexed_block(&[0u8; 100]), None);
    assert_eq!(cas_session_dir("/b", "s-1").unwrap(), "/b/uploads/s-1");
    assert!(cas_session_dir("/b", "../x").is_err());
    let garbage = receive_block_stream(b"garbage", true);
    assert!(garbage.frames.is_empty());
    assert_eq!(garbage.error, Some(StreamError::NoHash));
    assert_eq!(
        receive_block_stream(&digest(b"x"), false).error,
        Some(StreamError::NoLength)
    );
    let mut stream = digest(b"x");
    stream.extend_from_slice(&5u32.to_le_bytes());
    stream.extend_from_slice(b"xy");
    assert_eq!(
        receive_block_stream(&stream, false).error,
        Some(StreamError::NoPayload)
    );
    let mut stream = digest(b"x");
    stream.extend_from_slice(&1u32.to_le_bytes());
    stream.extend_from_slice(b"y");
    assert!(matches!(
        receive_block_stream(&stream, false).error,
        Some(StreamError::Store(StoreError::Mismatch { .. }))
    ));
}

fn block_stream(raws: &[&[u8]]) -> Vec<u8> {
    let mut stream = Vec::new();
    for raw in raws {
        write_cas_block_frame(&mut stream, &sha256_hex(raw), raw).expect("frame");
    }
    stream
}

#[test]
fn compressed_streams_may_end_between_blocks() {
    let empty = receive_block_stream(b"", true);
    assert!(empty.frames.is_empty());
    assert_eq!(empty.error, None);

    let first = pack_block_stream(&block_stream(&[b"one", b"two"])).expect("pack");
    let second = pack_block_stream(&block_stream(&[b"three"])).expect("pack");

    let mut cut = first.clone();
    cut.extend_from_slice(&second[..5]);
    let early = receive_block_stream(&cut, true);
    assert_eq!(early.frames[0].raw, b"one");
    assert_eq!(early.frames[1].raw, b"two");
    assert_eq!(early.error, None);

    let mut broken = first.clone();
    broken.extend_from_slice(b"garbage and more");
    let received = receive_block_stream(&broken, true);
    assert_eq!(received.frames.len(), 2);
    assert_eq!(received.error, Some(StreamError::NoHash));
    assert_eq!(
        received.error.unwrap().message(),
        "read CAS block stream hash"
    );

    let mut both = first;
    both.extend_from_slice(&second);
    assert_eq!(decode_stream(&both).bytes, block_stream(&[b"one", b"two", b"three"]));
    assert_eq!(decode_stream(&broken).bytes, block_stream(&[b"one", b"two"]));
    assert_eq!(decode_stream(&broken).end, DecodeEnd::Broken);
    let whole = receive_block_stream(&both, true);
    assert_eq!(whole.frames.len(), 3);
    assert_eq!(whole.error, None);
}

#[test]
fn decoded_streams_are_read_to_their_end() {
    let mut bytes = block_stream(&[b"one"]);
    bytes.extend_from_slice(&[7u8; 31]);
    let read = |end: DecodeEnd| {
        let r = read_decoded_blocks(&Decoded {
            bytes: bytes.clone(),
            end,
        });
        assert_eq!(r.frames.len(), 1);
        r.error
    };
    assert_eq!(read(DecodeEnd::Whole), None);
    assert_eq!(read(DecodeEnd::Early), None);
    assert_eq!(read(DecodeEnd::Broken), Some(StreamError::NoHash));
    let cut = read_decoded_blocks(&Decoded {
        bytes: vec![7u8; 33],
        end: DecodeEnd::Early,
    });
    assert_eq!(cut.error, Some(StreamError::NoLength));
}

// Imports.

fn text(s: &str) -> Header {
    Header::Text(s.to_string())
}

fn headers() -> ImportHeaders {
    ImportHeaders {
        source_instance: text("source"),
        command_json: Header::Missing,
        replace: Header::Missing,
        start: Header::Missing,
        idle_ttl_ms: Header::Missing,
    }
}

#[test]
fn import_headers_are_read() {
    let mut h = headers();
    h.command_json = text("[\"make\",\"a b\"]");
    h.replace = text("yes");
    h.start = text("TRUE");
    h.idle_ttl_ms = text("250");
    let o = import_options(&h).unwrap();
    assert_eq!(o.source_instance, "source");
    assert_eq!(o.command, vec!["make".to_string(), "a b".to_string()]);
    assert!(o.replace);
    assert!(!o.start);
    assert_eq!(o.idle_ttl_ms, Some(250));
    let o = import_options(&headers()).unwrap();
    assert!(o.command.is_empty());
    assert_eq!(o.idle_ttl_ms, None);
    let mut h = headers();
    h.command_json = text("");
    h.idle_ttl_ms = text("");
    assert!(import_options(&h).unwrap().command.is_empty());
}

#[test]
fn import_header_errors() {
    let mut h = headers();
    h.source_instance = Header::Missing;
    assert_eq!(
        import_options(&h).unwrap_err().message(),
        "missing x-lnx-source-instance header"
    );
    let mut h = headers();
    h.command_json = text("{}");
    assert_eq!(
        import_options(&h).unwrap_err().message(),
        "parse x-lnx-command-json: {}"
    );
    let mut h = headers();
    h.idle_ttl_ms = text("soon");
    assert_eq!(import_options(&h), Err(HeaderError::BadIdleTtl));
    let mut h = headers();
    h.replace = Header::NotText;
    assert_eq!(
        import_options(&h).unwrap_err().message(),
        "x-lnx-replace is not valid UTF-8"
    );
    let mut h = headers();
    h.command_json = text("anything");
    assert_eq!(
        import_options_with(&h, Some(vec!["true".to_string()]))
            .unwrap()
            .command,
        vec!["true".to_string()]
    );
    assert_eq!(header_bool(&text("1"), "n"), Ok(true));
    assert_eq!(header_bool(&text("0"), "n"), Ok(false));
}

#[test]
fn content_types_tell_bundles_from_archives() {
    assert!(content_is_sparse_bundle("application/x-lnx-sparse-bundle"));
    assert!(content_is_sparse_bundle(
        " application/x-lnx-sparse-bundle ; v=1"
    ));
    assert!(!content_is_sparse_bundle("application/x-tar"));
    assert!(!content_is_sparse_bundle(""));
}

fn upload(version: u32, paths: &[&str]) -> CasUploadManifest {
    CasUploadManifest {
        version,
        source_instance: "source".to_string(),
        replace: false,
        start: false,
        idle_ttl_ms: None,
        command: Vec::new(),
        files: paths
            .iter()
            .map(|path| CasManifestFile {
                path: path.to_string(),
                len: 1,
                mode: 0,
                blocks: vec![CasManifestBlock {
                    offset: 0,
                    len: 1,
                    sha256: sha256_hex(path.as_bytes()),
                }],
            })
            .collect(),
    }
}

const NOTHING_THERE: TargetSeen = TargetSeen {
    broker_answers: false,
    lock_exists: false,
    has_rootfs: false,
    has_snapshots: false,
};

#[test]
fn uploads_are_checked_in_order() {
    assert_eq!(
        check_upload("t", &upload(1, &["../a"]), NOTHING_THERE)
            .unwrap()
            .message(),
        "unsupported CAS upload manifest version: 1"
    );
    let there = TargetSeen {
        has_snapshots: true,
        ..NOTHING_THERE
    };
    assert_eq!(
        check_upload("t", &upload(2, &["../a"]), there)
            .unwrap()
            .message(),
        "target instance already exists: t (use --replace)"
    );
    assert_eq!(
        check_upload("t", &upload(2, &["../a"]), NOTHING_THERE)
            .unwrap()
            .message(),
        "unsafe sparse bundle path: ../a"
    );
    assert_eq!(check_upload("t", &upload(2, &["a"]), NOTHING_THERE), None);
    assert_eq!(check_commit("t", &upload(1, &["a"]), NOTHING_THERE), None);
    let m = upload(2, &["a", "b"]);
    let required = required_blocks(&m);
    assert_eq!(required.len(), 2);
    assert_eq!(
        verify_cas_manifest_blocks_exist(&required, &vec![true, false])
            .unwrap()
            .message(),
        format!("missing CAS block {} for b", sha256_hex(b"b"))
    );
}

#[test]
fn snapshots_in_manifests() {
    let state = "instances/source/memory-snapshots/latest/vmstate.bin";
    let launch = "instances/source/memory-snapshots/latest/launch.json";
    assert_eq!(
        snapshot_in_manifest(&upload(2, &["a", launch])),
        SnapshotInManifest::NoSnapshot
    );
    assert_eq!(
        snapshot_in_manifest(&upload(2, &["a", launch, state])),
        SnapshotInManifest::Launch(1)
    );
    let SnapshotInManifest::NoLaunch(refusal) = snapshot_in_manifest(&upload(2, &[state])) else {
        panic!("no record is there");
    };
    assert!(refusal.message().contains("launch metadata is missing"));
    assert!(refusal.message().ends_with(&format!("({launch})")));
    assert_eq!(imported_source("/t/instances/source"), "source");
    assert_eq!(imported_source("/"), "unknown");
    assert_eq!(
        check_imported("source", false),
        Some(ImportRefusal::NoRootfs {
            instance: "source".to_string()
        })
    );
    assert_eq!(
        check_imported("source", false).unwrap().message(),
        "sandbox bundle is missing instances/source/rootfs.ext4"
    );
}

#[test]
fn imports_replace_directories() {
    let mut l = layout();
    assert!(replaced_directories(&l, false).is_empty());
    assert_eq!(replaced_directories(&l, true), vec![l.instance_dir.clone()]);
    l.run_dir = "/run/vm".to_string();
    assert_eq!(
        replaced_directories(&l, true),
        vec![l.instance_dir.clone(), "/run/vm".to_string()]
    );
    assert!(installs_kernel(true, false));
    assert!(!installs_kernel(true, true));
}

// Instances.

fn state() -> AppState {
    AppState::new(&ServeConfig {
        listen: "127.0.0.1:7777".to_string(),
        cpus: 4,
        memory_mib: 2048,
        nested_kvm: true,
        no_host_shares: true,
    })
}

#[test]
fn instances_are_started() {
    assert_eq!(instance_state(true, true, true), InstanceState::Running);
    assert_eq!(instance_state(false, true, true), InstanceState::Starting);
    assert_eq!(instance_state(false, false, true).name(), "stopped");
    assert_eq!(instance_state(false, false, false).name(), "partial");
    assert_eq!(
        start_existing_instance("vm", InstanceState::Running),
        Ok(false)
    );
    assert_eq!(
        start_existing_instance("vm", InstanceState::Stopped),
        Ok(true)
    );
    assert_eq!(
        start_existing_instance("vm", InstanceState::Starting)
            .unwrap_err()
            .message(),
        "instance is already starting: vm"
    );
    assert_eq!(
        start_existing_instance("vm", InstanceState::Partial),
        Err(StartRefusal::NoRootfs {
            instance: "vm".to_string()
        })
    );
    assert_eq!(
        build_instance_start_command("vm", Some(1), None, &state(), &start_command(&Vec::new())),
        vec![
            "--instance",
            "vm",
            "--cpus",
            "1",
            "--memory-mib",
            "2048",
            "--nested-kvm",
            "--no-host-shares",
            "true"
        ]
    );
    assert_eq!(instance_size(None, Some(1), &state()), (4, 1));
    assert_eq!(
        start_failure_message("  \n", "exit status: 1", "vm"),
        "start exited with status exit status: 1: vm"
    );
    assert_eq!(start_failure_message(" boom\n", "1", "vm"), "boom");
}

#[test]
fn processes_are_listed_once() {
    let found = host_pids_for_instance("12\n x\n7\n 5 \n7\n", 5);
    assert_eq!(found, vec![12, 7, 7]);
    let all: Vec<FoundProcess> = found
        .iter()
        .map(|pid| FoundProcess { pid: *pid, lives: true })
        .chain([FoundProcess { pid: 8, lives: false }])
        .collect();
    assert_eq!(instance_pids(Some(9), &all), vec![7, 9, 12]);
}

#[test]
fn stop_messages() {
    let m = |f| stop_failure_message(f, "vm", "/run/l", 120000);
    assert_eq!(
        m(StopFailure::StillStarting),
        "instance vm did not finish starting within 120 seconds; retry stop"
    );
    assert_eq!(
        stop_failure_message(StopFailure::StillCopying, "vm", "/run/l", 1500),
        "instance vm state copy did not finish within 1.5 seconds; retry stop"
    );
    assert_eq!(
        stop_failure_message(StopFailure::StillCopying, "vm", "/run/l", 50),
        "instance vm state copy did not finish within 0.05 seconds; retry stop"
    );
    assert_eq!(
        m(StopFailure::IncompleteLease),
        "instance vm owner lease remained incomplete at /run/l for 120 seconds; run lnx --instance vm snapshots clear to acknowledge and explicitly cold-boot"
    );
    assert_eq!(
        m(StopFailure::OwnerChanged { pid: 1, current: 2 }),
        "instance vm changed VM owner from pid 1 to pid 2 while stopping"
    );
    assert_eq!(
        m(StopFailure::LeftRunning { pid: 1 }),
        "owner process 1 for instance vm did not finish its shutdown snapshot within 120 seconds; it was left running so recoverable state is not discarded"
    );
    assert!(corrupt_lease_message("vm").starts_with("instance vm has a corrupt owner lease"));
    assert!(new_owner_message("vm").ends_with("retry stop"));
    assert!(unpublished_message("vm", "/w").contains("recoverable state remains at /w\n"));
    for ms in [0u64, 1, 10, 100, 250, 999, 1000, 1234, 60000] {
        assert_eq!(
            stop_failure_message(StopFailure::StillStarting, "vm", "", ms),
            format!(
                "instance vm did not finish starting within {} seconds; retry stop",
                ms as f64 / 1000.0
            )
        );
    }
}

// Pushing.

fn push_config(source: Layout, target: &str) -> PushConfig {
    PushConfig {
        source,
        url: "http://h:1/x".to_string(),
        target_instance: target.to_string(),
        replace: false,
        start: false,
        idle_ttl_ms: None,
        command: Vec::new(),
    }
}

#[test]
fn pushes_are_checked() {
    assert!(check_push(&push_config(layout(), "t"), true).is_ok());
    assert_eq!(
        check_push(&push_config(layout(), "t"), false)
            .unwrap_err()
            .message(),
        "source instance does not exist: vm"
    );
    assert_eq!(
        check_push(&push_config(layout(), "a/b"), true),
        Err(PushRefusal::Name {
            name: "a/b".to_string()
        })
    );
    assert_eq!(push_source(true), PushSource::Checkpoint);
    assert_eq!(push_source(false), PushSource::StoppedCopy);
    assert!(check_stopped_copy("vm", true).is_ok());
    assert!(check_stopped_copy("vm", false)
        .unwrap_err()
        .message()
        .contains("started while its push snapshot was being prepared"));
    assert_eq!(
        checkpointing_line("vm"),
        "source instance vm is running; checkpointing before push"
    );
    assert_eq!(checkpoint_result(true, false), CheckpointResult::NotRemoved);
    assert_eq!(checkpoint_wait_step(false, 119_999), CheckpointWait::Sleep(10));
    assert_eq!(checkpoint_wait_step(false, 120_000), CheckpointWait::Ask);
    assert_eq!(checkpoint_wait_step(true, 0), CheckpointWait::Ask);
    assert_eq!(
        not_removed_context("e"),
        "also failed to clean temporary checkpoint: e"
    );
    let l = checkpoint_bundle_layout(&layout(), "/tmp/p");
    assert_eq!(l.kernel, "/tmp/p/vmlinuz");
    assert_eq!(l.run_dir, "/tmp/p/instances/vm");
    assert_eq!(l.console_log, "/tmp/p/instances/vm/console.log");
}

#[test]
fn urls_keep_the_server_and_replace_the_path() {
    let base = "http://h:1/x";
    assert_eq!(
        cas_upload_url(base, "t").unwrap(),
        "http://h:1/v2/sandboxes/t/uploads"
    );
    assert_eq!(
        cas_blocks_url(base, "s").unwrap(),
        "http://h:1/v2/uploads/s/blocks"
    );
    assert_eq!(
        cas_commit_url(base, "s").unwrap(),
        "http://h:1/v2/uploads/s/commit"
    );
    assert_eq!(
        cas_session_url(base, "s").unwrap(),
        "http://h:1/v2/uploads/s"
    );
    assert_eq!(
        cas_session_url("not a url", "s").unwrap_err().message(),
        "parse server URL not a url"
    );
}

#[test]
fn server_replies() {
    assert_eq!(
        server_error_message("{..}", Some("no".to_string())),
        "no"
    );
    assert_eq!(server_error_message("all", Some(String::new())), "all");
    assert_eq!(
        server_refusal("400 Bad Request", "all", None),
        "server returned 400 Bad Request: all"
    );
    assert_eq!(
        dedupe_line(1, 2, 2048, 10),
        "dedupe: 1 known blocks, 2 missing blocks, 2.00 KiB logical, 10 B to upload"
    );
    assert_eq!(stored_line(3), "server stored 3 blocks");
}

// Terminals.

#[test]
fn terminals_are_opened() {
    let vars = vec![
        ("LC_ALL".to_string(), "C".to_string()),
        ("TERM".to_string(), "dumb".to_string()),
        ("TZ".to_string(), "UTC".to_string()),
    ];
    let env = terminal_env(&vars);
    assert_eq!(
        env,
        vec![
            ("TERM".to_string(), "xterm-256color".to_string()),
            ("COLORTERM".to_string(), "truecolor".to_string()),
            ("TZ".to_string(), "UTC".to_string()),
            ("LC_ALL".to_string(), "C".to_string()),
        ]
    );
    let user = TerminalUser {
        uid: 1,
        gid: 2,
        group: "g".to_string(),
    };
    let Message::OpenExec {
        argv, rows, cols, pty, cwd, uid, ..
    } = terminal_request(5, user, &vars)
    else {
        panic!("another request");
    };
    assert!(argv.is_empty() && pty && cwd == "/" && rows == 24 && cols == 80 && uid == 1);
    assert_eq!(terminal_failed_text("e"), "[terminal failed: e]\r\n");
    assert_eq!(connect_context("vm"), "connect running instance vm");
}

#[test]
fn terminal_input() {
    let resize = |kind: &str| {
        Some(TerminalResize {
            kind: kind.to_string(),
            rows: 3,
            cols: 4,
        })
    };
    let record = "{\"type\":\"resize\"}".to_string();
    assert_eq!(
        handle_terminal_ws_message(SocketMessage::Text(record.clone()), resize("resize")),
        Some(BrokerInput::Resize { rows: 3, cols: 4 })
    );
    assert_eq!(
        handle_terminal_ws_message(SocketMessage::Text(record.clone()), resize("other")),
        Some(BrokerInput::Data(record.clone().into_bytes()))
    );
    assert_eq!(
        handle_terminal_ws_message(SocketMessage::Text("é".to_string()), None),
        Some(BrokerInput::Data("é".as_bytes().to_vec()))
    );
    assert_eq!(handle_terminal_ws_message(SocketMessage::Ping, None), None);
    let (messages, last) = input_messages(9, BrokerInput::Close);
    assert!(last);
    assert_eq!(
        messages,
        vec![
            Message::Eof { channel_id: 9 },
            Message::Close { channel_id: 9 }
        ]
    );
}

#[test]
fn terminal_output() {
    let exit = |id| Message::ExitStatus {
        channel_id: id,
        status: -3,
    };
    let step = output_step(1, exit(1));
    assert!(step.done);
    assert_eq!(
        step.output,
        Some(BrokerOutput::Text("\r\n[process exited: -3]\r\n".to_string()))
    );
    let step = output_step(1, exit(2));
    assert!(!step.done && step.output.is_none());
    let step = output_step(
        1,
        Message::Stderr {
            channel_id: 1,
            bytes: vec![7],
        },
    );
    assert_eq!(step.output, Some(BrokerOutput::Data(vec![7])));
    assert_eq!(
        broker_error_step("e").output,
        Some(BrokerOutput::Text("\r\n[broker error: e]\r\n".to_string()))
    );
}

// Leases and logs.

#[test]
fn recorded_processes() {
    assert!(!process_alive(0, ProcessProbe::Reached));
    assert!(process_alive(1, ProcessProbe::NotPermitted));
    let found = |s: &str| FileText::Found(s.to_string());
    assert_eq!(
        recorded_owner_pid_from_lock("/l", &found(" 12\n")),
        Ok(Some(12))
    );
    assert_eq!(recorded_owner_pid_from_lock("/l", &FileText::Missing), Ok(None));
    assert!(matches!(
        recorded_owner_pid_from_lock("/l", &found("x")),
        Err(PidError::Unparsable { .. })
    ));
    assert_eq!(
        recorded_owner_pid_from_lock("/l", &found("-1"))
            .unwrap_err()
            .message(),
        "invalid owner pid -1 in /l/owner.pid"
    );
    assert_eq!(signal_process_step(0, None), SignalStep::InvalidPid);
    assert_eq!(signal_process_step(3, None), SignalStep::Process(3));
    assert_eq!(
        signal_process_step(3, Some(SignalResult::NoSuchProcess)),
        SignalStep::Done
    );
    assert_eq!(lock_dir_guard_path("/r/bootstrap.lock.d"), "/r/bootstrap.lock.d.guard");
    assert_eq!(lock_dir_guard_path("lock.d"), "lock.d.guard");
    assert_eq!(lock_dir_guard_path("/"), "/.guard");
    assert_eq!(lock_dir_guard_path("/x/.."), "/x/../.guard");
    assert_eq!(lock_dir_guard_path(""), ".guard");
    assert_eq!(guard_step(GuardTry::WouldBlock), GuardStep::Sleep);
    assert_eq!(
        owner_lease(1, 2, "a\"b", "/x"),
        "{\"pid\":1,\"protocol_version\":2,\"agent_source_stamp\":\"a\\\"b\",\"binary_path\":\"/x\"}\n"
    );
}

#[test]
fn log_texts() {
    assert_eq!(json_escape("a\"\\\n\u{1}"), "a\\\"\\\\\\n\u{1}");
    assert_eq!(lifecycle_id("run", 5, 6, 7), "run-5-6-7");
    assert_eq!(current_run_id(Some("a b"), "f".to_string()), "a_b");
    assert_eq!(current_run_id(Some(""), "f".to_string()), "f");
    assert_eq!(timing_delta("10\n", 3, 15), 5);
    assert_eq!(timing_delta("x", 3, 15), 12);
    assert_eq!(log_tail(b"abc\xff", 2), "c\u{fffd}");
    assert_eq!(console_hint(None), "");
    assert_eq!(
        console_lines("a\nb\nc", 2),
        vec!["console.tail b".to_string(), "console.tail c".to_string()]
    );
    assert!(owner_exit_message(false, "exit status: 1", "", "").contains("exit status: 1"));
}

// Outcomes.

#[test]
fn outcome_errors() {
    let o = |pid, pending, succeeded, error: Option<&str>| {
        Some(FinalSnapshotOutcome {
            pid,
            pending,
            succeeded,
            error: error.map(|e| e.to_string()),
        })
    };
    assert!(matches!(
        validate_final_snapshot_outcome("vm", Some(1), &None),
        Err(OutcomeError::NotReported { pid: 1, .. })
    ));
    assert!(matches!(
        validate_final_snapshot_outcome("vm", Some(1), &o(2, false, true, None)),
        Err(OutcomeError::OtherPid {
            actual: 2,
            expected: 1,
            ..
        })
    ));
    assert!(matches!(
        validate_final_snapshot_outcome("vm", Some(1), &o(1, true, false, None)),
        Err(OutcomeError::Unfinished { .. })
    ));
    assert!(matches!(
        validate_final_snapshot_outcome("vm", None, &o(1, false, false, Some("e"))),
        Err(OutcomeError::Failed { .. })
    ));
    assert_eq!(
        parse_final_snapshot_outcome("version=1\nstatus=success\n"),
        Err(OutcomeFormatError::InvalidPid)
    );
    assert_eq!(
        parse_final_snapshot_outcome("pid=1\nstatus=odd\n"),
        Err(OutcomeFormatError::InvalidStatus)
    );
    assert_eq!(
        outcome_temp_path(&layout(), 1, 2, 3),
        "/base/instances/vm/memory-snapshots/.final-snapshot.outcome.tmp-1-2-3"
    );
    assert_eq!(
        outcome_temp_step(998, Created::AlreadyThere),
        CreateStep::Next { attempt: 999 }
    );
    assert_eq!(
        outcome_temp_step(999, Created::AlreadyThere),
        CreateStep::GiveUp
    );
}

// Starting and running.

#[test]
fn configurations_are_checked() {
    assert!(validate_config(&run_config()).is_ok());
    let mut c = run_config();
    c.trace_events = true;
    assert_eq!(
        validate_config(&c),
        Err(ConfigError::TraceWithoutDeterminism)
    );
    let mut c = run_config();
    c.vhost_user_fs[0].read_only = false;
    assert_eq!(validate_config(&c), Err(ConfigError::WritableVhostUserFs));
    assert!(wants_fresh_owner(&run_config(), Some("nodaemonreuse")));
    let args = owner_restart_args(&run_config());
    assert!(args.contains(&"--forward".to_string()));
    assert!(args.contains(&"127.0.0.1:8080:127.0.0.1:80".to_string()));
    assert!(args.contains(&"tag=t,mount=/mnt,socket=/s,ro".to_string()));
    assert_eq!(krun_deterministic_time(true), Some("1"));
}

#[test]
fn settings_texts() {
    assert_eq!(owner_idle_ttl(Some("nodaemonreuse"), Some("9000")), 0);
    assert_eq!(agent_accept_timeout_from_env(None), 90000);
    assert_eq!(restore_proof_delay_from_env(None), 250);
    assert_eq!(restore_proof_delay_from_env(Some("7")), 7);
    assert_eq!(krun_log_level(Some("x")), 2);
    assert_eq!(
        RootfsBackend::from_env(Some("a\"b".to_string()))
            .unwrap_err()
            .message(),
        "LNX_ROOTFS_BACKEND must be 'pmem' or unset, got \"a\\\"b\""
    );
    assert_eq!(
        host_timezone(Some("/usr/share/zoneinfo/UTC"), None),
        Some("UTC".to_string())
    );
    assert!(kernel_cmdline("/dev/pmem0", true, false).contains("root=/dev/pmem0"));
}

#[test]
fn sessions_have_terminals() {
    assert_eq!(terminal_size(false, 5, 6), (24, 80));
    assert_eq!(terminal_size(true, 5, 6), (5, 6));
    assert!(use_pty(false, true, true));
    assert!(!use_pty(true, true, true));
    assert_ne!(new_request_id(1, 2), new_request_id(2, 2));
    let t = exec_terminal(true, false, Some("vt100"), None, (1, 2));
    assert_eq!((t.rows, t.cols), (24, 80));
}

#[test]
fn snapshot_errors() {
    assert!(matches!(
        snapshot_vm_config("/s", &HeaderRead::Failed("io".to_string())),
        Err(lnx::snapshots::HeaderError::Unreadable { .. })
    ));
    assert!(matches!(
        snapshot_vm_config("/s", &HeaderRead::Read(vec![0u8; 40])),
        Err(lnx::snapshots::HeaderError::BadMagic { .. })
    ));
    assert!(matches!(
        promote_snapshot_rootfs("/s", "/r/rootfs.ext4", false, &Ok(())),
        Err(PromoteError::Missing { .. })
    ));
    assert_eq!(
        seed_checkpoint_from_base(false, Some("/b"), true, "/l", true),
        SeedPlan::From("/b".to_string())
    );
    assert_eq!(
        seed_checkpoint_from_base(false, None, false, "/l", true),
        SeedPlan::From("/l".to_string())
    );
    assert_eq!(
        seed_checkpoint_from_base(true, None, false, "/l", true),
        SeedPlan::AlreadySeeded
    );
    assert_eq!(
        seed_checkpoint_from_base(false, None, false, "/l", false),
        SeedPlan::NoBase
    );
    let stat = || {
        StatRead::Found(FileStat {
            size: 1,
            modified_unix_nanos: Some(2),
            dev: 3,
            ino: 4,
            blocks: 5,
        })
    };
    assert!(snapshot_file_fingerprint("/s/f", &stat()).contains("size=1"));
    let stats = StateStats {
        vmstate: stat(),
        pages: stat(),
        rootfs: StatRead::Failed("gone".to_string()),
    };
    let id = legacy_snapshot_generation_id("/s", &stats);
    assert!(id.starts_with("legacy-"));
    assert_eq!(id, legacy_snapshot_generation_id("/s", &stats));
    assert_ne!(id, legacy_snapshot_generation_id("/t", &stats));
}

#[test]
fn deterministic_errors() {
    assert_eq!(
        parse_deterministic_clock_state(""),
        Err(ClockStateError::MissingVersion)
    );
    assert_eq!(
        parse_deterministic_clock_state("clock_state=v9\n"),
        Err(ClockStateError::UnsupportedVersion("v9".to_string()))
    );
    assert_eq!(
        parse_deterministic_clock_state("clock_state=deterministic-clock-state-v1\n"),
        Err(ClockStateError::MissingField(
            "realtime_unix_nanos".to_string()
        ))
    );
    assert_eq!(
        parse_deterministic_clock_state(
            "clock_state=deterministic-clock-state-v1\nrealtime_unix_nanos=x\n"
        ),
        Err(ClockStateError::BadField {
            key: "realtime_unix_nanos".to_string(),
            value: "x".to_string()
        })
    );
    let seed = DeterministicConfig {
        seed: "s".to_string(),
    };
    assert!(validate_runtime_deterministic_compatibility(
        &layout(),
        Some(&seed),
        &FileText::Missing
    )
    .is_err());
}

// Captures and the network.

#[test]
fn captures_are_requested() {
    assert!(snapshot_request(&[FRAME_SNAPSHOT, 0, 0, 0, 0]).is_ok());
    assert_eq!(
        snapshot_request(&[FRAME_SNAPSHOT, 0, 0, 0, 1]),
        Err(HandshakeError::BadRequest)
    );
    assert_eq!(
        ready_step(ReadyRead::Byte(SNAPSHOT_READY), false),
        ReadyStep::Capture
    );
    assert_eq!(
        ready_step(ReadyRead::Gone("timed out".to_string()), false),
        ReadyStep::Reconnect
    );
    assert_eq!(
        ready_step(ReadyRead::Gone("timed out".to_string()), true),
        ReadyStep::Fail("read snapshot ready reconnect: timed out".to_string())
    );
    assert_eq!(
        ready_step(ReadyRead::Byte(0), false),
        ReadyStep::Refuse(HandshakeError::BadReady)
    );
    assert_eq!(
        unblock_step(0, 10, true, WaitSeen::Nobody),
        UnblockStep::Cancelled
    );
    assert_eq!(
        unblock_step(0, 10, false, WaitSeen::Connected),
        UnblockStep::ReadAndClose
    );
    assert_eq!(hello_timeout(0, 90000), 2000);
    let mut last = None;
    assert_eq!(
        accept_step(0, 1000, None, Some(AcceptSeen::Connected), &mut last),
        AcceptStep::Use
    );
    assert_eq!(
        accept_step(900, 1000, None, None, &mut last),
        AcceptStep::Poll(100)
    );
    assert_eq!(
        accept_step(999, 1000, Some("gone".to_string()), Some(AcceptSeen::Nobody), &mut last),
        AcceptStep::Fail("libkrun start failed: gone".to_string())
    );
    assert_eq!(
        accept_step(1000, 1000, None, Some(AcceptSeen::VmFailed("gone".to_string())), &mut last),
        AcceptStep::Fail("libkrun start failed: gone".to_string())
    );
    assert_eq!(
        accept_step(1000, 1000, Some("gone".to_string()), Some(AcceptSeen::Nobody), &mut last),
        AcceptStep::Fail("timed out waiting for lnx-agent".to_string())
    );
    assert_eq!(
        accept_step(
            1000,
            1000,
            Some("gone".to_string()),
            Some(AcceptSeen::AcceptFailed("refused".to_string())),
            &mut last
        ),
        AcceptStep::Fail("timed out waiting for lnx-agent: refused".to_string())
    );
    assert_eq!(
        clock_stamp_copy(false, ClockFile::Missing, "/c"),
        StampCopy::Skip
    );
}

#[test]
fn checkpoints_are_answered() {
    assert_eq!(
        checkpoint_answer(1, None),
        Message::CheckpointCreated { channel_id: 1 }
    );
    assert_eq!(
        checkpoint_answer(1, Some("e".to_string())),
        Message::Error {
            channel_id: 1,
            message: "e".to_string()
        }
    );
    assert_eq!(
        snapshot_exit_answer(1, Some("e")),
        Message::Error {
            channel_id: 1,
            message: "snapshot-exit failed: e".to_string()
        }
    );
    let whole = capture_plan(false);
    assert_eq!(checkpoint_plan(), whole[2..whole.len() - 1].to_vec());
}

#[test]
fn networks_are_waited_for() {
    assert_eq!(gvproxy_socket("/r"), "/r/gvproxy.sock");
    assert_eq!(gvproxy_log("/r"), "/r/gvproxy.log");
    assert_eq!(
        krun_socket("/r/gvproxy.sock"),
        Some("/r/gvproxy.sock-krun.sock".to_string())
    );
    assert_eq!(guest_env(), (String::new(), String::new()));
    let mut attempts = 126;
    assert_eq!(
        wait_for_path_step(&mut attempts, false, 0, 10),
        WaitStep::Spin
    );
    assert_eq!(
        wait_for_path_step(&mut attempts, false, 0, 10),
        WaitStep::Yield
    );
    assert_eq!(
        wait_for_path_step(&mut attempts, false, 10, 10),
        WaitStep::TimedOut
    );
    assert_eq!(
        wait_for_path_step(&mut attempts, true, 10, 10),
        WaitStep::Found
    );
    assert_eq!(attempts, 128);
    assert_eq!(wait_timeout_message("/p"), "timed out waiting for /p");
    assert!(path_is_visible("/r/s", false, &vec!["s".to_string()]));
    assert!(!path_is_visible("/r/s", false, &vec!["t".to_string()]));
    assert_eq!(bind_step(18, BindSeen::InUse), BindStep::Again { attempt: 19 });
    assert_eq!(bind_step(19, BindSeen::InUse), BindStep::Fail);
    assert_eq!(bind_step(0, BindSeen::Bound), BindStep::Use);
}

#[test]
fn subnet_errors() {
    assert!(matches!(
        parse_subnet("10.0.0.0"),
        Err(SubnetError::NoPrefix { .. })
    ));
    assert!(matches!(
        parse_subnet("10.0.0/8"),
        Err(SubnetError::Address { .. })
    ));
    assert!(matches!(
        parse_subnet("10.0.0.0/x"),
        Err(SubnetError::Prefix { .. })
    ));
    assert!(matches!(
        parse_subnet("10.0.0.0/31"),
        Err(SubnetError::Range { prefix: 31 })
    ));
    assert!(matches!(
        parse_subnet("10.0.0.1/8"),
        Err(SubnetError::HostBits { .. })
    ));
    assert!(parse_subnet("x").unwrap_err().message().contains("\"x\""));
    assert_eq!(interface_started(Some((1000, 1500))), Ok(1514));
    assert!(interface_started(None).is_err());
    assert_eq!(read_step(true, 1000, 3), ReadStep::Stop);
    assert_eq!(read_step(false, 1000, 32), ReadStep::More(32));
    assert_eq!(pump_step(PumpRead::Frame(9), false), PumpStep::Write(9));
}

#[test]
fn sparse_files() {
    let large = 16 * 1024 * 1024 * 1024u64;
    assert!(is_large_sparse_transfer(large, 0));
    assert!(!is_large_sparse_transfer(1, 0));
    let dense = vec![Span {
        offset: 0,
        len: large,
    }];
    assert!(is_suspicious_dense_extent_report(large, 0, &dense));
    assert!(matches!(
        sparse_file_extents("/f", large, 0, Ok(dense)),
        Err(ExtentError::Dense { .. })
    ));
    assert!(matches!(
        sparse_file_extents("/f", large, 0, Err("e".to_string())),
        Err(ExtentError::Unknown { .. })
    ));
    assert_eq!(
        sparse_file_extents("/f", 5, 0, Err("e".to_string())),
        Ok(vec![Span { offset: 0, len: 5 }])
    );
    assert_eq!(
        sparse_file_extents("/f", 0, 0, Err("e".to_string())),
        Ok(Vec::new())
    );
    assert!(ficlone_can_fall_back(CloneError::CrossDevice));
    assert!(!ficlone_can_fall_back(CloneError::Other));
}

#[test]
fn ports_are_forwarded_once() {
    let mut ports = ForwardedPorts::new();
    assert!(ports.claim("127.0.0.1", 80).is_none());
    let forward = ports.claim("127.0.0.1", 8080).unwrap();
    assert_eq!(forward_spec(&forward), "127.0.0.1:8080:127.0.0.1:8080");
    assert!(ports.claim("127.0.0.1", 8080).is_none());
    ports.remove("127.0.0.1", 8080);
    assert!(ports.claim("127.0.0.1", 8080).is_some());
    let asked = |host: &str, port: u16| PortForward {
        listen_host: host.to_string(),
        listen_port: port,
        guest_host: "127.0.0.1".to_string(),
        guest_port: 1,
    };
    ports.record(&asked("127.0.0.1", 9090));
    ports.record(&asked("127.0.0.1", 443));
    ports.record(&asked("0.0.0.0", 9091));
    assert!(ports.contains("127.0.0.1", 9090));
    assert!(!ports.contains("127.0.0.1", 443));
    assert!(!ports.contains("0.0.0.0", 9091));
    assert_eq!(unprivileged(&vec![22, 1024, 1025]), vec![1025]);
    assert_eq!(localhost_url_forward("http://a@localhost:1/"), None);
    assert_eq!(localhost_url_forward("ftp://localhost:1/"), None);
}

#[test]
fn paths_and_names() {
    assert_eq!(join("/a", "/b"), "/b");
    assert_eq!(parent("/a/b/"), Some("/a".to_string()));
    assert_eq!(file_name("/a/.."), None);
    assert_eq!(strip_prefix("/a/b", "/a"), Some("b".to_string()));
    assert_eq!(sibling_dot_path("/a/b", "next"), Ok("/a/.b.next".to_string()));
    assert_eq!(sibling_dot_path("/", "next"), Err(SiblingError::NoParent));
    assert_eq!(
        host_home_for_cwd("/tmp", Some("/home/me")),
        Ok("/home/me".to_string())
    );
    assert_eq!(
        outside_home_cwd("/tmp/x", "/home/me"),
        Some("/tmp/x".to_string())
    );
    assert_eq!(outside_home_cwd("/home/me/x", "/home/me"), None);
    assert_eq!(
        validate_session_id("a b"),
        Err(NameError::Session {
            id: "a b".to_string()
        })
    );
    assert_eq!(
        session_id_for_digest("t", "0123456789abcdef0123"),
        "t-0123456789abcdef"
    );
}

#[test]
fn message_texts() {
    assert_eq!(
        FrameTooLarge { len: 5 }.message(),
        "protocol message too large: 5"
    );
    assert!(mismatch_message(2, 1).contains('2'));
    assert_eq!(
        piped_input(3, vec![1]),
        vec![
            Message::Data {
                channel_id: 3,
                bytes: vec![1]
            },
            Message::Eof { channel_id: 3 }
        ]
    );
    let event = trace_open_url(1, "http://x".to_string(), true);
    assert_eq!(event.fields[0].value, TraceValue::Text("0000000000000001".to_string()));
    let event = trace_client_message(&Message::Eof { channel_id: 2 }).unwrap();
    assert_eq!(event.fields[0].key, "channel_id");
}
