//! What holds of the library as a whole, on values.
use lnx::broker::{Accept, Broker, IdleStep, LoopStep, Registration};
use lnx::bundle::{
    add_collected, bundle_header, bundle_prefix, extract_sparse_bundle, BundleError,
    CollectedFile, ExtractStep, SparseBundleFile, SparseBundleManifest, SparseExtent,
};
use lnx::capture::{capture_plan, removes_next, CaptureStep};
use lnx::cas::{
    block_pieces, distinct_blocks, extent_pieces, negotiate, pack_block_stream,
    read_cas_block_stream, receive_block_stream, reconstruct_cas_file, validate_cas_manifest,
    write_cas_block_frame, BlockIndex, CasManifestBlock, CasManifestFile, CasUploadManifest,
    ManifestError, Span,
};
use lnx::config::RunConfig;
use lnx::deterministic::{
    describe_deterministic_stamp_mismatch, deterministic_clock_state_content,
    deterministic_stamp_content, import_timer_jumps, parse_deterministic_clock_state,
    DeterministicClockState, DeterministicConfig,
};
use lnx::digest::{bytes_from_hex, hex_from_bytes, sha256_hex, sha256_hex_is_valid, CAS_BLOCK_SIZE};
use lnx::imports::{check_target, ImportRefusal, TargetSeen};
use lnx::instances::{
    begin_stop, ensure_shutdown_state, list_instance, stop_step, InstanceState, InstanceSummary,
    LeaseSeen, ShutdownCheck, Stop, StopFailure, StopNext, StopPhase, StopSeen,
};
use lnx::launch::{
    launch_metadata_matches_ignoring_cwd, normalized_vhost_user_fs, LaunchCompatibility,
    LaunchHostShareCache, LaunchMetadata, LaunchShares, LaunchVhostUserFsMount,
};
use lnx::locks::{replace_step, ReplaceAction, ReplaceView, Replacing};
use lnx::logs::{log_value, run_log_line};
use lnx::names::{new_upload_session_id, session_id_is_valid, validate_instance_name};
use lnx::outcome::{
    acknowledge_final_snapshot_outcome, final_snapshot_outcome_content,
    parse_final_snapshot_outcome, validate_final_snapshot_outcome,
    validate_or_record_final_snapshot_failure, Acknowledge, OutcomeFile, OutcomeStatus,
    StoppedOwner,
};
use lnx::paths::{components_of, join, Layout};
use lnx::protocol::{
    encode_frame, frame_length, proxy_step, session_step, Message, ProxyAction, ProxyPhase,
    SessionAction, SessionEvent,
};
use lnx::publish::{cleanup_plan, publish_plan, publish_recovery, DirOp};
use lnx::push::{manifest_file, push_step, PushEvent, PushPhase};
use lnx::run::{
    begin_foreground, begin_run, next_foreground_phase, next_phase, ForegroundPhase, PhaseOutcome,
    RunPhase,
};
use lnx::session::forwarded_exec_env;
use lnx::settings::RootfsBackend;
use lnx::snapshots::{
    memory_time, read_snapshot_generation_id, snapshot_lifecycle_manifest,
    snapshot_rootfs_pair_incoherent, SnapshotTimes, StatRead, StateStats,
};
use lnx::sparse::{copy_step, CopySeen, CopyStep, ExtentWalk, LARGE_SPARSE_IMAGE_BYTES};
use lnx::stamps::{parse_shares_stamp, write_stamp};
use lnx::start::plan_vm;
use lnx::vmnet::{gateway_for_subnet, mask_for_prefix, parse_subnet};
use std::collections::BTreeMap;

fn layout() -> Layout {
    let dir = "/base/instances/vm".to_string();
    Layout {
        base: "/base".to_string(),
        instance: "vm".to_string(),
        kernel: "/base/vmlinuz".to_string(),
        rootfs: join(&dir, "rootfs.ext4"),
        instance_dir: dir.clone(),
        snapshot_dir: join(&dir, "memory-snapshots"),
        checkpoint_dir: join(&dir, "checkpoints"),
        vm_initialized: join(&dir, "vm-initialized"),
        run_dir: dir.clone(),
        console_log: join(&dir, "console.log"),
    }
}

fn run_config() -> RunConfig {
    RunConfig {
        layout: layout(),
        command: vec!["true".to_string()],
        cwd: "/home/me".to_string(),
        cpus: 2,
        memory_mib: 4096,
        nested_kvm: false,
        restore_snapshot: None,
        restore_latest_if_available: false,
        forwards: Vec::new(),
        snapshot_output: None,
        run_as_root: false,
        no_host_shares: true,
        vhost_user_fs: Vec::new(),
        reuse_owner: true,
        deterministic: None,
        trace_events: false,
    }
}

// The broker.

#[test]
fn broker_does_not_shut_down_while_a_client_is_active() {
    let mut broker = Broker::new(true);
    let mut deadline = None;
    assert_eq!(
        broker.owner_step(Accept::Client, &mut deadline, 1000, 0),
        LoopStep::Serve
    );
    assert_eq!(broker.register(1), Registration::Open);
    assert_eq!(
        broker.owner_step(Accept::WouldBlock, &mut deadline, 2000, 0),
        LoopStep::Wait
    );
    assert!(broker.close(1));
    assert_eq!(
        broker.owner_step(Accept::WouldBlock, &mut deadline, 3000, 0),
        LoopStep::Shutdown
    );
}

#[test]
fn broker_grace_period_runs_from_the_first_idle_look() {
    let broker = Broker::new(true);
    let mut deadline = None;
    assert_eq!(broker.idle_step(&mut deadline, 100, 50), IdleStep::Wait);
    assert_eq!(deadline, Some(150));
    assert_eq!(broker.idle_step(&mut deadline, 149, 50), IdleStep::Wait);
    assert_eq!(deadline, Some(150));
    assert_eq!(broker.idle_step(&mut deadline, 150, 50), IdleStep::Shutdown);
}

#[test]
fn broker_waits_for_a_first_client() {
    let broker = Broker::new(false);
    let mut deadline = None;
    assert_eq!(broker.idle_step(&mut deadline, 1_000_000, 0), IdleStep::Wait);
    assert_eq!(deadline, None);
}

#[test]
fn broker_refuses_an_id_that_is_taken() {
    let mut broker = Broker::new(false);
    broker.reserve();
    assert_eq!(broker.register(7), Registration::Open);
    broker.reserve();
    assert_eq!(broker.register(7), Registration::Collision);
}

// Bundles.

#[test]
fn bundle_header_gives_back_the_length() {
    let manifest = vec![7u8; 300];
    let prefix = bundle_prefix(&manifest);
    assert_eq!(bundle_header(&prefix), Ok(300));
    assert_eq!(&prefix[prefix.len() - 300..], &manifest[..]);
}

#[test]
fn extraction_stays_below_its_directory() {
    let manifest = SparseBundleManifest {
        version: 1,
        source_instance: "source".to_string(),
        compression: None,
        files: vec![
            SparseBundleFile {
                path: "ok".to_string(),
                len: 4,
                mode: 0o100644,
                extents: vec![SparseExtent {
                    offset: 0,
                    len: 4,
                    compressed_len: None,
                }],
            },
            SparseBundleFile {
                path: "../out".to_string(),
                len: 0,
                mode: 0,
                extents: Vec::new(),
            },
        ],
    };
    let (steps, error) = extract_sparse_bundle(&manifest);
    assert_eq!(
        steps,
        vec![
            ExtractStep::Create {
                path: "ok".to_string(),
                len: 4
            },
            ExtractStep::Copy { offset: 0, len: 4 },
            ExtractStep::SetMode { mode: 0o644 },
        ]
    );
    assert_eq!(
        error,
        Some(BundleError::UnsafePath {
            path: "../out".to_string()
        })
    );
}

#[test]
fn collected_files_are_in_order() {
    let mut files = Vec::new();
    for name in ["b", "a", "c/d", "b/x"] {
        add_collected(
            &mut files,
            CollectedFile {
                relative: name.to_string(),
                source: name.to_string(),
                len: 0,
                mode: 0,
                extents: Vec::new(),
            },
        );
    }
    let names: Vec<&str> = files.iter().map(|file| file.relative.as_str()).collect();
    assert_eq!(names, vec!["a", "b", "b/x", "c/d"]);
}

// Captures.

#[test]
fn snapshots_are_published_last() {
    for full in [false, true] {
        let plan = capture_plan(full);
        assert_eq!(plan.last(), Some(&CaptureStep::Publish));
        assert_eq!(plan.contains(&CaptureStep::Seed), !full);
    }
    assert!(removes_next(CaptureStep::CheckDisk));
    assert!(!removes_next(CaptureStep::Capture));
}

// Uploads.

fn block(offset: u64, raw: &[u8]) -> CasManifestBlock {
    CasManifestBlock {
        offset,
        len: raw.len() as u64,
        sha256: sha256_hex(raw),
    }
}

fn manifest(files: Vec<CasManifestFile>) -> CasUploadManifest {
    CasUploadManifest {
        version: 2,
        source_instance: "source".to_string(),
        replace: false,
        start: false,
        idle_ttl_ms: None,
        command: Vec::new(),
        files,
    }
}

fn file(path: &str, len: u64, blocks: Vec<CasManifestBlock>) -> CasManifestFile {
    CasManifestFile {
        path: path.to_string(),
        len,
        mode: 0o644,
        blocks,
    }
}

#[test]
fn bad_manifests_are_refused() {
    let good = manifest(vec![file("a", 10, vec![block(0, b"12345"), block(5, b"67")])]);
    assert!(validate_cas_manifest(&good).is_ok());

    let mut named = manifest(Vec::new());
    named.source_instance = "a/b".to_string();
    assert_eq!(
        validate_cas_manifest(&named),
        Err(ManifestError::Name {
            name: "a/b".to_string()
        })
    );
    assert_eq!(
        validate_cas_manifest(&manifest(vec![file("../a", 0, Vec::new())])),
        Err(ManifestError::UnsafePath {
            path: "../a".to_string()
        })
    );
    assert_eq!(
        validate_cas_manifest(&manifest(vec![
            file("a", 0, Vec::new()),
            file("a", 0, Vec::new())
        ])),
        Err(ManifestError::Duplicate {
            path: "a".to_string()
        })
    );
    assert_eq!(
        validate_cas_manifest(&manifest(vec![file("", 0, Vec::new())])),
        Err(ManifestError::EmptyPath)
    );
    let mut bad_hash = block(0, b"1");
    bad_hash.sha256 = "xyz".to_string();
    assert_eq!(
        validate_cas_manifest(&manifest(vec![file("a", 1, vec![bad_hash])])),
        Err(ManifestError::Hash {
            value: "xyz".to_string()
        })
    );
    assert_eq!(
        validate_cas_manifest(&manifest(vec![file("a", 1, vec![block(0, b"")])])),
        Err(ManifestError::Length {
            len: 0,
            path: "a".to_string()
        })
    );
    assert_eq!(
        validate_cas_manifest(&manifest(vec![file("a", 4, vec![block(0, b"12345")])])),
        Err(ManifestError::OutOfBounds {
            path: "a".to_string()
        })
    );
    assert_eq!(
        validate_cas_manifest(&manifest(vec![file(
            "a",
            10,
            vec![block(0, b"12345"), block(4, b"67")]
        )])),
        Err(ManifestError::Overlap {
            path: "a".to_string()
        })
    );
}

#[test]
fn pieces_cover_an_extent() {
    assert_eq!(
        block_pieces(10, 2 * CAS_BLOCK_SIZE + 3),
        vec![
            Span {
                offset: 10,
                len: CAS_BLOCK_SIZE
            },
            Span {
                offset: 10 + CAS_BLOCK_SIZE,
                len: CAS_BLOCK_SIZE
            },
            Span {
                offset: 10 + 2 * CAS_BLOCK_SIZE,
                len: 3
            },
        ]
    );
    assert!(block_pieces(10, 0).is_empty());
}

#[test]
fn every_block_is_known_or_sent_once() {
    let m = manifest(vec![
        file("a", 10, vec![block(0, b"12345"), block(5, b"12345")]),
        file("b", 2, vec![block(0, b"67")]),
    ]);
    let distinct = distinct_blocks(&m);
    assert_eq!(distinct.len(), 2);
    let r = negotiate(&m, &distinct, &vec![true, false]);
    assert_eq!(r.known_blocks + r.missing.len(), 2);
    assert_eq!(r.missing, vec![sha256_hex(b"67")]);
    assert_eq!(r.logical_bytes, 12);
}

#[test]
fn uploads_come_back_whole() {
    let len = 3 * CAS_BLOCK_SIZE as usize;
    let mut content = vec![0u8; len];
    for (i, byte) in content[..100].iter_mut().enumerate() {
        *byte = i as u8;
    }
    content[len - 10..].copy_from_slice(b"0123456789");
    let extents = vec![
        Span { offset: 0, len: 100 },
        Span {
            offset: len as u64 - 20,
            len: 20,
        },
    ];
    let mut index = BlockIndex::new();
    let mut blocks = Vec::new();
    let mut stream = Vec::new();
    for piece in extent_pieces(&extents) {
        let raw = &content[piece.offset as usize..(piece.offset + piece.len) as usize];
        let block = index.add("rootfs.ext4", piece, raw);
        write_cas_block_frame(&mut stream, &block.sha256, raw).expect("frame");
        blocks.push(block);
    }
    let payload = pack_block_stream(&stream).expect("pack");
    assert_ne!(payload, stream);
    let received = receive_block_stream(&payload, true);
    assert!(received.error.is_none());
    let store: BTreeMap<String, Vec<u8>> = received
        .frames
        .into_iter()
        .map(|frame| (frame.sha256, frame.raw))
        .collect();

    let f = file("rootfs.ext4", len as u64, blocks);
    let mut rebuilt = vec![0u8; len];
    for block in reconstruct_cas_file(&f) {
        let raw = &store[&block.sha256];
        rebuilt[block.offset as usize..(block.offset + block.len) as usize].copy_from_slice(raw);
    }
    assert!(rebuilt == content);
}

#[test]
fn pushed_manifests_are_accepted() {
    let collected = |relative: &str| CollectedFile {
        relative: relative.to_string(),
        source: format!("/base/{relative}"),
        len: 2 * CAS_BLOCK_SIZE + 7,
        mode: 0o644,
        extents: vec![
            Span { offset: 3, len: CAS_BLOCK_SIZE + 1 },
            Span { offset: 2 * CAS_BLOCK_SIZE, len: 7 },
        ],
    };
    let mut index = BlockIndex::new();
    let mut files = Vec::new();
    for file in [collected("instances/vm/rootfs.ext4"), collected("vmlinuz")] {
        let mut blocks = Vec::new();
        for piece in extent_pieces(&file.extents) {
            let source = file.source.clone();
            blocks.push(index.add(&source, piece, source.as_bytes()));
        }
        assert_eq!(blocks.len(), 3);
        files.push(manifest_file(file, blocks));
    }
    assert_eq!(files[1].path, "vmlinuz");
    assert_eq!(files[1].len, 2 * CAS_BLOCK_SIZE + 7);
    assert_eq!(files[1].mode, 0o644);
    let manifest = CasUploadManifest {
        version: 2,
        source_instance: "vm".to_string(),
        replace: false,
        start: false,
        idle_ttl_ms: None,
        command: Vec::new(),
        files,
    };
    assert_eq!(validate_cas_manifest(&manifest), Ok(()));
}

#[test]
fn streams_come_back_frame_by_frame() {
    let mut stream = Vec::new();
    for raw in [&b"one"[..], b"two", b"three"] {
        write_cas_block_frame(&mut stream, &sha256_hex(raw), raw).expect("frame");
    }
    let r = read_cas_block_stream(&stream);
    assert!(r.error.is_none());
    let raws: Vec<&[u8]> = r.frames.iter().map(|frame| frame.raw.as_slice()).collect();
    assert_eq!(raws, vec![&b"one"[..], b"two", b"three"]);
}

// Deterministic mode.

#[test]
fn stamps_tell_seeds_apart() {
    let stamp = |seed: &str| {
        deterministic_stamp_content(Some(&DeterministicConfig {
            seed: seed.to_string(),
        }))
    };
    assert_ne!(stamp("a"), stamp("b"));
    assert_ne!(stamp("a"), deterministic_stamp_content(None));
    assert_eq!(
        describe_deterministic_stamp_mismatch(&stamp("a"), &stamp("a")),
        "snapshot and current deterministic stamps differ only in unrecognized fields"
    );
}

#[test]
fn clock_state_comes_back() {
    let state = DeterministicClockState {
        realtime_unix_nanos: u64::MAX,
        monotonic_nanos: 0,
        counter_frequency_hz: 1,
        event_sequence: 2,
        timer_jump_count: 3,
        last_timer_deadline_ticks: 4,
    };
    assert_eq!(
        parse_deterministic_clock_state(&deterministic_clock_state_content(&state)),
        Ok(state)
    );
}

#[test]
fn timer_jumps_are_imported_once() {
    let first = "deadline_ticks=1 counter_frequency_hz=2 deadline_nanos=3\n";
    let second = "deadline_ticks=4 counter_frequency_hz=5 deadline_nanos=6\nnothing\n";
    let r = import_timer_jumps(first, 0);
    assert_eq!(r.jumps.len(), 1);
    assert_eq!(r.cursor, first.len() as u64);
    let file = format!("{first}{second}");
    let r = import_timer_jumps(&file[r.cursor as usize..], r.cursor);
    assert_eq!(r.jumps.len(), 1);
    assert_eq!(r.jumps[0].deadline_ticks, 4);
    assert_eq!(r.cursor, file.len() as u64);
}

#[test]
fn hex_comes_back_as_bytes() {
    let bytes: Vec<u8> = (0..32u8).map(|i| i * 8).collect();
    let hex = hex_from_bytes(&bytes);
    assert_eq!(hex.len(), 64);
    assert!(sha256_hex_is_valid(&hex));
    assert_eq!(bytes_from_hex(&hex), Ok(bytes));
    assert!(bytes_from_hex("12").is_err());
    assert_eq!(
        sha256_hex(b"abc"),
        "ba7816bf8f01cfea414140de5dae2223b00361a396177a9cb410ff61f20015ad"
    );
}

// Imports and instances.

#[test]
fn instances_in_use_are_not_imported_over() {
    let free = TargetSeen {
        broker_answers: false,
        lock_exists: false,
        has_rootfs: true,
        has_snapshots: false,
    };
    assert_eq!(
        check_target("vm", free, false),
        Some(ImportRefusal::Exists {
            instance: "vm".to_string()
        })
    );
    assert_eq!(check_target("vm", free, true), None);
    let running = TargetSeen {
        broker_answers: true,
        ..free
    };
    assert_eq!(
        check_target("vm", running, true).map(|e| e.message()),
        Some("target instance is running: vm".to_string())
    );
    let starting = TargetSeen {
        lock_exists: true,
        ..free
    };
    assert_eq!(
        check_target("vm", starting, true).map(|e| e.message()),
        Some("target instance is starting: vm".to_string())
    );
}

fn summary(name: &str, state: InstanceState) -> InstanceSummary {
    InstanceSummary {
        name: name.to_string(),
        state,
        pids: Vec::new(),
        cpus: 1,
        memory_mib: 512,
        image: None,
        rootfs_size_bytes: None,
        rootfs_allocated_bytes: None,
        checkpoints: 0,
        has_snapshot: false,
    }
}

#[test]
fn lists_are_ordered_by_state_and_name() {
    let mut list = Vec::new();
    list_instance(&mut list, summary("b", InstanceState::Stopped));
    list_instance(&mut list, summary("Z", InstanceState::Running));
    list_instance(&mut list, summary("B", InstanceState::Stopped));
    list_instance(&mut list, summary("A", InstanceState::Stopped));
    list_instance(&mut list, summary("p", InstanceState::Partial));
    list_instance(&mut list, summary("s", InstanceState::Starting));
    let names: Vec<&str> = list.iter().map(|s| s.name.as_str()).collect();
    assert_eq!(names, vec!["Z", "s", "A", "B", "b", "p"]);
}

const NO_LEASE: LeaseSeen = LeaseSeen {
    lock_exists: false,
    recorded: None,
    recorded_lives: false,
    maintenance: None,
};

const IDLE: StopSeen = StopSeen {
    present: true,
    owner: None,
    start_lock: false,
    expired: false,
    lease: NO_LEASE,
};

#[test]
fn stopping_asks_an_owner_once_and_waits_for_it() {
    let with_owner = StopSeen {
        owner: Some(42),
        ..IDLE
    };
    let (stop, step) = stop_step(begin_stop(), with_owner);
    assert_eq!(step.signal, Some(42));
    assert_eq!(step.next, StopNext::Again);
    let (stop, step) = stop_step(stop, with_owner);
    assert_eq!(step.signal, None);
    assert_eq!(step.next, StopNext::Sleep(10));
    let (stop, step) = stop_step(
        stop,
        StopSeen {
            start_lock: true,
            ..with_owner
        },
    );
    assert_eq!(step.next, StopNext::Again);
    let (stop, step) = stop_step(stop, with_owner);
    assert_eq!(step.signal, None);
    assert_eq!(stop.phase, StopPhase::AwaitExit(42));
    let (stop, step) = stop_step(stop, with_owner);
    assert_eq!(step.next, StopNext::Sleep(50));
    let (stop, step) = stop_step(stop, IDLE);
    assert_eq!(step.next, StopNext::Verify(Some(42)));
    assert_eq!(stop.phase, StopPhase::Over);
}

#[test]
fn stopping_gives_up_without_killing() {
    let awaited = Stop {
        phase: StopPhase::AwaitExit(42),
        signaled: Some(42),
    };
    let late = StopSeen {
        owner: Some(42),
        expired: true,
        ..IDLE
    };
    assert_eq!(
        stop_step(awaited, late).1.next,
        StopNext::Fail(StopFailure::LeftRunning { pid: 42 })
    );
    assert_eq!(
        stop_step(
            awaited,
            StopSeen {
                owner: Some(43),
                ..late
            }
        )
        .1
        .next,
        StopNext::Fail(StopFailure::OwnerChanged {
            pid: 42,
            current: 43
        })
    );
    let starting = Stop {
        phase: StopPhase::StartLock,
        signaled: None,
    };
    assert_eq!(
        stop_step(starting, late).1.next,
        StopNext::Fail(StopFailure::StillStarting)
    );
}

#[test]
fn stopping_looks_at_the_lease_that_is_left() {
    let lease = Stop {
        phase: StopPhase::Lease,
        signaled: None,
    };
    let seen = |lease: LeaseSeen, expired: bool| StopSeen {
        lease,
        expired,
        ..IDLE
    };
    assert_eq!(
        stop_step(lease, seen(NO_LEASE, false)).1.next,
        StopNext::Verify(None)
    );
    let dead = LeaseSeen {
        lock_exists: true,
        recorded: Some(7),
        ..NO_LEASE
    };
    assert_eq!(
        stop_step(lease, seen(dead, false)).1.next,
        StopNext::Verify(Some(7))
    );
    let alive = LeaseSeen {
        recorded_lives: true,
        ..dead
    };
    assert_eq!(stop_step(lease, seen(alive, false)).1.next, StopNext::Again);
    let copying = LeaseSeen {
        lock_exists: true,
        maintenance: Some(true),
        ..NO_LEASE
    };
    assert_eq!(
        stop_step(lease, seen(copying, false)).1.next,
        StopNext::Sleep(10)
    );
    assert_eq!(
        stop_step(lease, seen(copying, true)).1.next,
        StopNext::Fail(StopFailure::StillCopying)
    );
    let empty = LeaseSeen {
        lock_exists: true,
        ..NO_LEASE
    };
    assert_eq!(
        stop_step(lease, seen(empty, true)).1.next,
        StopNext::Fail(StopFailure::IncompleteLease)
    );
    assert_eq!(
        stop_step(
            begin_stop(),
            StopSeen {
                present: false,
                ..IDLE
            }
        )
        .1
        .next,
        StopNext::Done
    );
}

#[test]
fn instances_stop_well_only_with_nothing_left() {
    let l = layout();
    let fine = Ok(None);
    assert_eq!(
        ensure_shutdown_state(&l, false, false, false, None, &fine),
        ShutdownCheck::Free
    );
    assert_eq!(
        ensure_shutdown_state(&l, true, false, false, None, &fine),
        ShutdownCheck::NewOwner
    );
    assert_eq!(
        ensure_shutdown_state(&l, true, true, true, None, &fine),
        ShutdownCheck::Unpublished {
            work: "/base/instances/vm/memory-snapshots/.restore-work".to_string()
        }
    );
    assert_eq!(
        ensure_shutdown_state(&l, false, false, false, Some(-1), &fine),
        ShutdownCheck::BadPid
    );
    let content = final_snapshot_outcome_content(5, OutcomeStatus::Success, None);
    let recorded = Ok(Some(parse_final_snapshot_outcome(&content).unwrap()));
    assert_eq!(
        ensure_shutdown_state(&l, false, false, false, Some(5), &recorded),
        ShutdownCheck::Ended(StoppedOwner::Fine)
    );
    let content = final_snapshot_outcome_content(5, OutcomeStatus::Error, Some("boom"));
    let recorded = Ok(Some(parse_final_snapshot_outcome(&content).unwrap()));
    assert!(matches!(
        ensure_shutdown_state(&l, false, false, false, None, &recorded),
        ShutdownCheck::Blocked(_)
    ));
}

// Launches.

fn mount(tag: &str) -> LaunchVhostUserFsMount {
    LaunchVhostUserFsMount {
        tag: tag.to_string(),
        mount: format!("/mnt/{tag}"),
        socket: format!("/tmp/{tag}.sock"),
        read_only: true,
    }
}

fn launch(mounts: Vec<LaunchVhostUserFsMount>, cwd: Option<&str>) -> LaunchMetadata {
    LaunchMetadata {
        version: 2,
        owner_args: Vec::new(),
        compatibility: LaunchCompatibility {
            host_share_cache: LaunchHostShareCache { dax: true },
        },
        shares: LaunchShares {
            no_host_shares: false,
            host_home: Some("/home/me".to_string()),
            outside_home_cwd: cwd.map(|cwd| cwd.to_string()),
        },
        vhost_user_fs: mounts,
    }
}

#[test]
fn launches_match_in_any_directory() {
    let a = launch(vec![mount("a"), mount("b")], None);
    let b = launch(vec![mount("a"), mount("b")], Some("/tmp"));
    let c = launch(vec![mount("a"), mount("b")], Some("/var"));
    assert!(launch_metadata_matches_ignoring_cwd(&a, &a));
    assert!(launch_metadata_matches_ignoring_cwd(&a, &b));
    assert!(launch_metadata_matches_ignoring_cwd(&b, &a));
    assert!(launch_metadata_matches_ignoring_cwd(&b, &c));
    assert!(launch_metadata_matches_ignoring_cwd(&a, &c));
    assert!(!launch_metadata_matches_ignoring_cwd(
        &a,
        &launch(vec![mount("a")], None)
    ));
    let tags: Vec<String> = normalized_vhost_user_fs(&vec![mount("c"), mount("a"), mount("b")])
        .into_iter()
        .map(|m| m.tag)
        .collect();
    assert_eq!(tags, vec!["a", "b", "c"]);
}

#[test]
fn permuted_mounts_are_normalized_alike() {
    let normal = normalized_vhost_user_fs(&vec![mount("a"), mount("b"), mount("b")]);
    assert_eq!(
        normalized_vhost_user_fs(&vec![mount("b"), mount("a"), mount("b")]),
        normal
    );
    assert_eq!(normalized_vhost_user_fs(&normal), normal);
    assert_ne!(
        normalized_vhost_user_fs(&vec![mount("a"), mount("a"), mount("b")]),
        normal
    );
}

#[test]
fn owners_are_killed_only_after_their_grace() {
    let seen = |now: u64| ReplaceView {
        owner: Some(9),
        stale: false,
        alive: true,
        now,
    };
    let (_, state) = replace_step(Replacing::Begin, seen(0));
    assert_eq!(replace_step(state, seen(4999)).0, ReplaceAction::Wait);
    assert_eq!(replace_step(state, seen(5000)).0, ReplaceAction::Kill(9));
    let ended = |now: u64| ReplaceView { alive: false, ..seen(now) };
    assert_eq!(
        replace_step(state, ended(4999)).0,
        ReplaceAction::Clean { lock: true }
    );
    assert_eq!(replace_step(state, ended(5000)).0, ReplaceAction::Kill(9));
}

// Logs and names.

#[test]
fn logged_values_are_one_word() {
    let word = log_value("a b\tc\r\nd");
    assert!(!word.contains(char::is_whitespace));
    assert_eq!(log_value(&word), word);
}

#[test]
fn log_messages_are_one_line() {
    let line = run_log_line(12, 34, "one\r\ntwo");
    assert_eq!(line, "12.000000034 one | two\n");
}

#[test]
fn instance_names_are_one_component() {
    for name in ["a", "a.b", "a-b_c"] {
        assert!(validate_instance_name(name).is_ok());
        assert_eq!(components_of(name), vec![name.to_string()]);
    }
    assert!(validate_instance_name(".").is_err());
    assert!(validate_instance_name("..").is_err());
}

#[test]
fn new_sessions_have_valid_names() {
    let a = new_upload_session_id("target", 1, 2);
    let b = new_upload_session_id("target", 2, 2);
    assert!(a.starts_with("target-"));
    assert!(session_id_is_valid(&a));
    assert_ne!(a, b);
}

// Outcomes.

#[test]
fn failures_stay_on_record_until_they_are_acknowledged() {
    let StoppedOwner::RecordAndReport { error, record } =
        validate_or_record_final_snapshot_failure("vm", 7, &Ok(None))
    else {
        panic!("nothing was recorded");
    };
    assert!(record.contains(&error.message()));
    let content = final_snapshot_outcome_content(7, OutcomeStatus::Error, Some(&record));
    let on_record = Some(parse_final_snapshot_outcome(&content).unwrap());
    assert!(validate_final_snapshot_outcome("vm", None, &on_record).is_err());

    let Acknowledge::Overwrite { content } =
        acknowledge_final_snapshot_outcome(7, OutcomeFile::Regular)
    else {
        panic!("the record is kept in place");
    };
    let on_record = Some(parse_final_snapshot_outcome(&content).unwrap());
    assert!(validate_final_snapshot_outcome("vm", None, &on_record).is_ok());
    assert_eq!(content, "version=1\npid=7\nstatus=cleared\n");
}

// Messages.

#[test]
fn frames_are_read_apart() {
    let first = encode_frame(b"one", 10).unwrap();
    let second = encode_frame(b"second", 10).unwrap();
    let mut wire = first.clone();
    wire.extend_from_slice(&second);
    let n = frame_length(&wire[..4], 10).unwrap() as usize;
    assert_eq!(&wire[4..4 + n], b"one");
    assert_eq!(&wire[4 + n..], &second[..]);
}

#[test]
fn sessions_read_only_their_channel() {
    assert_eq!(
        session_step(
            1,
            SessionEvent::Received(Message::ExitStatus {
                channel_id: 2,
                status: 3
            })
        ),
        SessionAction::Ignore
    );
    assert_eq!(
        session_step(
            1,
            SessionEvent::Received(Message::ExitStatus {
                channel_id: 1,
                status: 3
            })
        ),
        SessionAction::Exit(3)
    );
}

#[test]
fn streams_are_never_reopened() {
    let error = || Message::Error {
        channel_id: 1,
        message: "connect: Connection refused".to_string(),
    };
    let (action, _) = proxy_step(ProxyPhase::Streaming, 1, false, error());
    assert_ne!(action, ProxyAction::Reopen);
    let data = Message::Data {
        channel_id: 1,
        bytes: vec![1],
    };
    let (action, phase) = proxy_step(ProxyPhase::Opening, 1, false, data);
    assert_eq!(action, ProxyAction::WriteLocal(vec![1]));
    assert_eq!(phase, ProxyPhase::Streaming);
}

// Publishing.

/// The directories of a snapshot: the published one, the next and the one before.
type Dirs = (Option<u8>, Option<u8>, Option<u8>);

fn apply(dirs: Dirs, ops: &[DirOp]) -> Dirs {
    let (mut latest, mut next, mut previous) = dirs;
    for op in ops {
        match op {
            DirOp::RemovePrevious => previous = None,
            DirOp::RemoveNext => next = None,
            DirOp::SetAside => previous = latest.take(),
            DirOp::Publish => latest = next.take(),
            DirOp::Recover => latest = previous.take(),
        }
    }
    (latest, next, previous)
}

#[test]
fn interrupted_publishes_lose_nothing() {
    let plan = publish_plan(true);
    for k in 0..=plan.len() {
        let (latest, next, previous) = apply((Some(1), Some(2), None), &plan[..k]);
        let ops = cleanup_plan(latest.is_some(), next.is_some(), previous.is_some());
        let cleaned = apply((latest, next, previous), &ops);
        assert!(cleaned.0.is_some());
        assert_eq!(cleaned.1, None);
        assert_eq!(cleaned.2, None);
    }
    assert_eq!(apply((Some(1), Some(2), None), &plan), (Some(2), None, None));
    assert_eq!(publish_recovery(true, false, true), Some(DirOp::Recover));
    assert_eq!(publish_recovery(true, true, true), None);
}

#[test]
fn pushes_abort_what_they_began() {
    let begun = push_step(PushPhase::Begin, PushEvent::Begun { any_missing: true });
    assert_eq!(begun, PushPhase::Pack);
    assert_eq!(push_step(begun, PushEvent::Failed), PushPhase::Abort);
    assert_eq!(
        push_step(PushPhase::Begin, PushEvent::Failed),
        PushPhase::Failed
    );
    assert_eq!(
        push_step(PushPhase::Begin, PushEvent::Begun { any_missing: false }),
        PushPhase::Commit
    );
    let mut phase = begun;
    for _ in 0..3 {
        phase = push_step(phase, PushEvent::Done);
    }
    assert_eq!(phase, PushPhase::Pushed);
    assert_eq!(push_step(PushPhase::Abort, PushEvent::Done), PushPhase::Failed);
}

// Running.

#[test]
fn runs_end() {
    let config = run_config();
    let mut phase = begin_run(&config, false).unwrap();
    assert_eq!(phase, RunPhase::AskExisting);
    let mut steps = 0;
    while !matches!(phase, RunPhase::Done(_) | RunPhase::Failed) {
        phase = next_phase(phase, PhaseOutcome::Ready, false);
        steps += 1;
        assert!(steps < 10);
    }
    assert_ne!(begin_run(&config, true).unwrap(), RunPhase::AskExisting);
}

#[test]
fn vms_are_started_only_under_the_lock() {
    for fresh in [false, true] {
        for has_forwards in [false, true] {
            let mut phase = begin_foreground(fresh, has_forwards);
            let mut locked = false;
            for _ in 0..8 {
                if phase == ForegroundPhase::Start {
                    assert!(locked);
                }
                if matches!(phase, ForegroundPhase::Lock | ForegroundPhase::LockOrClient) {
                    locked = true;
                }
                phase = next_foreground_phase(phase, PhaseOutcome::Ready, fresh, has_forwards);
            }
        }
    }
}

#[test]
fn named_variables_are_the_hosts() {
    let vars = vec![
        ("LANG".to_string(), "de".to_string()),
        ("SECRET".to_string(), "x".to_string()),
        ("LC_TIME".to_string(), "fr".to_string()),
        ("NO_COLOR".to_string(), String::new()),
    ];
    assert_eq!(
        forwarded_exec_env(&vars, Some("UTC")),
        vec![
            ("LANG".to_string(), "de".to_string()),
            ("LC_TIME".to_string(), "fr".to_string()),
            ("TZ".to_string(), "UTC".to_string()),
        ]
    );
}

// Snapshots.

#[test]
fn generations_come_back() {
    let failed = || StatRead::Failed("gone".to_string());
    let stats = StateStats {
        vmstate: failed(),
        pages: failed(),
        rootfs: failed(),
    };
    let manifest = snapshot_lifecycle_manifest("snapshot-1", "run", 1, "/rootfs", &stats);
    assert_eq!(
        read_snapshot_generation_id(&manifest),
        Some("snapshot-1".to_string())
    );
}

#[test]
fn aligned_disks_are_coherent() {
    let (vmstate, pages) = (5_000_000_000i128, 3_000_000_000i128);
    let rootfs = memory_time(vmstate, pages);
    let times = SnapshotTimes {
        rootfs,
        vmstate,
        pages,
    };
    assert_eq!(snapshot_rootfs_pair_incoherent("/s", times), None);
    let newer = SnapshotTimes {
        rootfs: rootfs + 1_000_000_001,
        ..times
    };
    assert!(snapshot_rootfs_pair_incoherent("/s", newer).is_some());
}

#[test]
fn walks_keep_their_order() {
    let mut walk = ExtentWalk::new(100);
    walk.found(10, 20);
    walk.found(30, 200);
    assert!(walk.is_done());
    assert_eq!(
        walk.extents,
        vec![
            Span {
                offset: 10,
                len: 10
            },
            Span {
                offset: 30,
                len: 70
            }
        ]
    );
}

#[test]
fn large_images_stay_sparse() {
    let len = LARGE_SPARSE_IMAGE_BYTES;
    assert_eq!(
        copy_step(len, CopySeen::Begin { allocated: len }),
        CopyStep::Refuse
    );
    assert_eq!(
        copy_step(
            len,
            CopySeen::Copied {
                allocated: len / 2 + 1
            }
        ),
        CopyStep::RemoveDense
    );
    assert_eq!(
        copy_step(len, CopySeen::Copied { allocated: len / 2 }),
        CopyStep::Finish
    );
}

#[test]
fn stamps_come_back() {
    let stamp = write_stamp(&vec![("a", "1".to_string()), ("b", "x=y".to_string())]);
    assert_eq!(stamp, "a=1\nb=x=y\n");
    let fields = parse_shares_stamp(&stamp);
    assert_eq!(fields.get("a"), Some("1"));
    assert_eq!(fields.get("b"), Some("x=y"));
    assert_eq!(fields.get("c"), None);
}

#[test]
fn cold_boots_promote_nothing() {
    let config = run_config();
    let shares = lnx::launch::ShareLayout {
        host_home: "/home/me".to_string(),
        outside_home_cwd: None,
        no_host_shares: true,
    };
    let plan = plan_vm(&config, &shares, None, RootfsBackend::Pmem, true, "", "", 0);
    assert_eq!(plan.rootfs, config.layout.rootfs);
    assert!(!plan.is_snapshot_rootfs);
}

#[test]
fn gateways_lie_in_their_subnet() {
    for spec in ["10.0.0.0/8", "172.16.0.0/12", "192.168.106.0/24", "192.168.1.8/29"] {
        let (subnet, prefix) = parse_subnet(spec).expect("parse");
        let mask = mask_for_prefix(prefix);
        assert_eq!(gateway_for_subnet(subnet) & mask, subnet);
    }
}
