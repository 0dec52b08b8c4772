//! The server: sandboxes that are pushed and imported.
use lnx::bundle::{
    bundle_header, bundle_prefix, check_bundle_manifest, deflate_extent, extract_sparse_bundle,
    inflate_extent, ExtractStep, SparseBundleFile, SparseBundleManifest, SparseExtent,
};
use lnx::cas::{
    block_pieces, cas_block_path, distinct_blocks, negotiate, read_cas_block_stream,
    reconstruct_cas_file, store_cas_block, write_cas_block_frame, BlockIndex, CasManifestBlock,
    CasManifestFile, CasUploadManifest, Span, StoreStep,
};
use lnx::digest::{sha256_hex, zero_block_hash, CAS_BLOCK_SIZE};
use lnx::imports::{
    check_commit, check_imported, check_target, check_upload, encoding_is_zstd, import_response,
    imported_source, installs_kernel, replaced_directories, required_blocks,
    validate_imported_snapshot, verify_cas_manifest_blocks_exist, TargetSeen,
};
use lnx::launch::{
    default_restore_version_matches, snapshot_shares_incompatibility_for_import,
    LaunchCompatibility, LaunchHostShareCache, LaunchMetadata, LaunchRead, LaunchShares,
};
use lnx::names::{new_upload_session_id, session_id_is_valid, validate_instance_name};
use lnx::paths::{join, Layout};
use lnx::push::{human_bytes, sandbox_url, upload_manifest, upload_progress_frame, PushConfig};
use lnx::sparse::{copy_step, CloneError, CopySeen, CopyStep, ExtentWalk};
use lnx::vmnet::{gateway_for_subnet, mask_for_prefix, parse_subnet};
use std::collections::BTreeMap;

fn test_layout(base: &str, instance: &str) -> Layout {
    let dir = join(&join(base, "instances"), instance);
    Layout {
        base: base.to_string(),
        instance: instance.to_string(),
        kernel: join(base, "vmlinuz"),
        rootfs: join(&dir, "rootfs.ext4"),
        instance_dir: dir.clone(),
        snapshot_dir: join(&dir, "memory-snapshots"),
        checkpoint_dir: join(&dir, "checkpoints"),
        vm_initialized: join(&dir, "vm-initialized"),
        run_dir: dir.clone(),
        console_log: join(&dir, "console.log"),
    }
}

fn test_push_config(source: Layout) -> PushConfig {
    PushConfig {
        source,
        url: "http://127.0.0.1:7777".to_string(),
        target_instance: "target".to_string(),
        replace: true,
        start: false,
        idle_ttl_ms: None,
        command: Vec::new(),
    }
}

const NOTHING_THERE: TargetSeen = TargetSeen {
    broker_answers: false,
    lock_exists: false,
    has_rootfs: false,
    has_snapshots: false,
};

/// The blocks of a file that is read whole.
fn file_blocks(
    index: &mut BlockIndex,
    path: &str,
    source: &str,
    content: &[u8],
) -> CasManifestFile {
    let mut blocks = Vec::new();
    for piece in block_pieces(0, content.len() as u64) {
        let from = piece.offset as usize;
        let raw = &content[from..from + piece.len as usize];
        blocks.push(index.add(source, piece, raw));
    }
    CasManifestFile {
        path: path.to_string(),
        len: content.len() as u64,
        mode: 0o644,
        blocks,
    }
}

/// What a file holds that is put together from its blocks.
fn rebuilt(file: &CasManifestFile, store: &BTreeMap<String, Vec<u8>>) -> Vec<u8> {
    let mut content = vec![0u8; file.len as usize];
    for block in reconstruct_cas_file(file) {
        let from = block.offset as usize;
        let raw = &store[&block.sha256];
        content[from..from + block.len as usize].copy_from_slice(&raw[..block.len as usize]);
    }
    content
}

#[test]
fn rejects_path_like_instance_names() {
    assert!(validate_instance_name("ok-name_1.2").is_ok());
    assert!(validate_instance_name("../nope").is_err());
    assert!(validate_instance_name("bad/name").is_err());
    assert!(validate_instance_name("").is_err());
}

#[test]
fn builds_sandbox_url() {
    let url = sandbox_url("http://127.0.0.1:7777/base", "remote").expect("url");
    assert_eq!(url.as_str(), "http://127.0.0.1:7777/v1/sandboxes/remote");
}

#[test]
fn imports_bundle_into_target_layout() {
    let dest = test_layout("/srv/lnx", "target");
    assert_eq!(check_target("target", NOTHING_THERE, false), None);
    assert_eq!(check_imported("source", true), None);
    assert_eq!(imported_source("/srv/lnx/.import-1/instances/source"), "source");

    let record = LaunchRead::Found(LaunchMetadata {
        version: 1,
        owner_args: Vec::new(),
        compatibility: LaunchCompatibility {
            host_share_cache: LaunchHostShareCache { dax: true },
        },
        shares: LaunchShares {
            no_host_shares: true,
            host_home: None,
            outside_home_cwd: None,
        },
        vhost_user_fs: Vec::new(),
    });
    assert!(!default_restore_version_matches(&record));
    let reason =
        snapshot_shares_incompatibility_for_import(&record, "/srv", true, Some("/home/server"))
            .expect("compare");
    assert_eq!(reason, None);
    assert_eq!(validate_imported_snapshot("source", reason), None);

    assert!(replaced_directories(&dest, false).is_empty());
    assert!(installs_kernel(true, false));
    let response = import_response("target", "source", false, None);
    assert!(response.ok);
    assert_eq!(response.instance, "target");
    assert_eq!(response.imported, "source");
}

#[test]
fn imports_refuse_records_of_unknown_versions() {
    let reason = |version: u32| {
        let record = LaunchRead::Found(LaunchMetadata {
            version,
            owner_args: Vec::new(),
            compatibility: LaunchCompatibility {
                host_share_cache: LaunchHostShareCache { dax: true },
            },
            shares: LaunchShares {
                no_host_shares: true,
                host_home: None,
                outside_home_cwd: None,
            },
            vhost_user_fs: Vec::new(),
        });
        snapshot_shares_incompatibility_for_import(&record, "/srv", true, Some("/home/server"))
            .expect("compare")
    };
    assert_eq!(reason(1), None);
    assert_eq!(reason(2), None);
    for version in [0, 3, u32::MAX] {
        assert_eq!(
            reason(version),
            Some("share_mismatch: launch metadata differs only in ignored fields".to_string())
        );
    }
}

#[test]
fn encodings_are_named_in_any_case() {
    assert!(encoding_is_zstd("zstd"));
    assert!(encoding_is_zstd("ZStd"));
    assert!(!encoding_is_zstd("gzip"));
    assert!(!encoding_is_zstd(""));
}

#[test]
fn rejects_sparse_bundle_with_incompatible_launch_metadata() {
    let record = LaunchRead::Found(LaunchMetadata {
        version: 1,
        owner_args: Vec::new(),
        compatibility: LaunchCompatibility {
            host_share_cache: LaunchHostShareCache { dax: true },
        },
        shares: LaunchShares {
            no_host_shares: false,
            host_home: Some("/different".to_string()),
            outside_home_cwd: None,
        },
        vhost_user_fs: Vec::new(),
    });
    let reason =
        snapshot_shares_incompatibility_for_import(&record, "/srv", true, Some("/home/server"))
            .expect("compare");
    let error = validate_imported_snapshot("source", reason)
        .expect("incompatible snapshot should be rejected");

    assert!(error
        .message()
        .contains("snapshot cannot be restored on this server"));
}

#[test]
fn sparse_bundle_round_trips_sparse_rootfs() {
    let len = 64 * 1024 * 1024usize;
    let at = 48 * 1024 * 1024usize;
    let mut rootfs = vec![0u8; len];
    rootfs[at..at + 11].copy_from_slice(b"SPARSE_DATA");
    let extent_len = 4096usize;
    let kernel = b"kernel".to_vec();

    let packed_rootfs = deflate_extent(&rootfs[at..at + extent_len]).expect("deflate");
    let packed_kernel = deflate_extent(&kernel).expect("deflate");
    let manifest = SparseBundleManifest {
        version: 1,
        source_instance: "source".to_string(),
        compression: Some("zstd".to_string()),
        files: vec![
            SparseBundleFile {
                path: "instances/source/rootfs.ext4".to_string(),
                len: len as u64,
                mode: 0o644,
                extents: vec![SparseExtent {
                    offset: at as u64,
                    len: extent_len as u64,
                    compressed_len: Some(packed_rootfs.len() as u64),
                }],
            },
            SparseBundleFile {
                path: "vmlinuz".to_string(),
                len: kernel.len() as u64,
                mode: 0o600,
                extents: vec![SparseExtent {
                    offset: 0,
                    len: kernel.len() as u64,
                    compressed_len: Some(packed_kernel.len() as u64),
                }],
            },
        ],
    };
    let text = b"{}".to_vec();
    let mut bundle = bundle_prefix(&text);
    assert_eq!(bundle_header(&bundle), Ok(text.len() as u64));
    let payload_at = bundle.len();
    bundle.extend_from_slice(&packed_rootfs);
    bundle.extend_from_slice(&packed_kernel);
    assert!(
        bundle.len() < 32 * 1024 * 1024,
        "bundle should send extents, not the full sparse rootfs: {}",
        bundle.len()
    );

    check_bundle_manifest(&manifest, "source").expect("manifest");
    let (steps, error) = extract_sparse_bundle(&manifest);
    assert!(error.is_none());
    let mut files: Vec<(String, Vec<u8>, u32)> = Vec::new();
    let mut payload = &bundle[payload_at..];
    for step in steps {
        match step {
            ExtractStep::Create { path, len } => files.push((path, vec![0u8; len as usize], 0)),
            ExtractStep::Copy { .. } => panic!("every extent is compressed"),
            ExtractStep::Inflate {
                offset,
                compressed_len,
                len,
            } => {
                let (own, rest) = payload.split_at(compressed_len as usize);
                payload = rest;
                let file = files.last_mut().expect("a file");
                let data = inflate_extent(own, &file.0, offset, len).expect("inflate");
                let from = offset as usize;
                file.1[from..from + data.len()].copy_from_slice(&data);
            }
            ExtractStep::SetMode { mode } => files.last_mut().expect("a file").2 = mode,
        }
    }
    assert_eq!(files[0].0, "instances/source/rootfs.ext4");
    assert_eq!(files[0].1.len(), 64 * 1024 * 1024);
    assert_eq!(&files[0].1[at..at + 11], b"SPARSE_DATA");
    assert!(files[0].1 == rootfs);
    assert_eq!(files[1].1, b"kernel");
    assert_eq!(files[1].2, 0o600);
}

#[test]
fn formats_upload_progress_bytes() {
    assert_eq!(human_bytes(0), "0 B");
    assert_eq!(human_bytes(1023), "1023 B");
    assert_eq!(human_bytes(1024), "1.00 KiB");
    assert_eq!(human_bytes(10 * 1024 * 1024), "10.0 MiB");
    assert_eq!(upload_progress_frame(0).len(), 20);
}

#[test]
fn cas_manifest_splits_and_deduplicates_blocks() {
    let source = test_layout("/tmp/source", "source");
    let mut content = vec![0x42u8; CAS_BLOCK_SIZE as usize];
    content.extend_from_slice(&vec![0x42u8; CAS_BLOCK_SIZE as usize]);
    content.extend_from_slice(b"tail");

    let mut index = BlockIndex::new();
    let kernel = file_blocks(&mut index, "vmlinuz", &source.kernel, b"kernel");
    let rootfs = file_blocks(
        &mut index,
        "instances/source/rootfs.ext4",
        &source.rootfs,
        &content,
    );
    let config = test_push_config(test_layout("/tmp/source", "source"));
    let manifest = upload_manifest("source", &config, vec![rootfs, kernel]);
    let rootfs_file = manifest
        .files
        .iter()
        .find(|file| file.path == "instances/source/rootfs.ext4")
        .expect("rootfs file");
    assert_eq!(rootfs_file.blocks.len(), 3);
    assert_eq!(rootfs_file.blocks[0].sha256, rootfs_file.blocks[1].sha256);
    assert_eq!(rootfs_file.blocks[2].len, 4);
    assert!(
        distinct_blocks(&manifest).len() < rootfs_file.blocks.len() + manifest.files.len(),
        "repeated blocks should be stored once in the upload map"
    );
    let first = index.get(&rootfs_file.blocks[1].sha256).expect("a source");
    assert_eq!(first.offset, 0);
}

#[test]
fn cas_upload_negotiation_requests_only_missing_blocks() {
    let known = sha256_hex(b"known");
    let missing = sha256_hex(b"missing");
    assert_eq!(store_cas_block(&known, b"known"), Ok(StoreStep::Write));
    let manifest = CasUploadManifest {
        version: 2,
        source_instance: "source".to_string(),
        replace: true,
        start: false,
        idle_ttl_ms: None,
        command: Vec::new(),
        files: vec![CasManifestFile {
            path: "instances/source/rootfs.ext4".to_string(),
            len: 12,
            mode: 0o644,
            blocks: vec![
                CasManifestBlock {
                    offset: 0,
                    len: 5,
                    sha256: known.clone(),
                },
                CasManifestBlock {
                    offset: 5,
                    len: 7,
                    sha256: missing.clone(),
                },
            ],
        }],
    };

    assert!(check_upload("target", &manifest, NOTHING_THERE).is_none());
    let blocks = distinct_blocks(&manifest);
    let present: Vec<bool> = blocks.iter().map(|block| block.sha256 == known).collect();
    let response = negotiate(&manifest, &blocks, &present);

    assert_eq!(response.known_blocks, 1);
    assert_eq!(response.missing, vec![missing]);
    assert_eq!(response.missing_bytes, 7);
}

#[test]
fn cas_block_stream_stores_multiple_blocks() {
    let first = b"first-block";
    let second = b"second-block";
    let first_hash = sha256_hex(first);
    let second_hash = sha256_hex(second);
    let mut encoded = Vec::new();
    write_cas_block_frame(&mut encoded, &first_hash, first).expect("first frame");
    write_cas_block_frame(&mut encoded, &second_hash, second).expect("second frame");

    let stream = read_cas_block_stream(&encoded);
    assert!(stream.error.is_none());
    let mut store = BTreeMap::new();
    for frame in &stream.frames {
        assert_eq!(
            store_cas_block(&frame.sha256, &frame.raw),
            Ok(StoreStep::Write)
        );
        let path = cas_block_path("/srv/lnx", &frame.sha256).expect("path");
        store.insert(path, frame.raw.clone());
    }

    assert_eq!(stream.frames.len(), 2);
    assert_eq!(
        store[&cas_block_path("/srv/lnx", &first_hash).expect("first path")],
        first
    );
    assert_eq!(
        store[&cas_block_path("/srv/lnx", &second_hash).expect("second path")],
        second
    );
}

#[test]
fn cas_commit_reconstructs_imported_instance() {
    let source = test_layout("/tmp/source", "source");
    let contents: [(&str, &str, &[u8]); 2] = [
        ("instances/source/rootfs.ext4", &source.rootfs, b"rootfs-data"),
        ("vmlinuz", &source.kernel, b"kernel"),
    ];
    let mut index = BlockIndex::new();
    let files = contents
        .iter()
        .map(|(path, from, content)| file_blocks(&mut index, path, from, content))
        .collect();
    let config = test_push_config(test_layout("/tmp/source", "source"));
    let manifest = upload_manifest("source", &config, files);

    assert!(check_upload("target", &manifest, NOTHING_THERE).is_none());
    let blocks = distinct_blocks(&manifest);
    let present = vec![false; blocks.len()];
    let start = negotiate(&manifest, &blocks, &present);
    let session = new_upload_session_id("target", 1, 2);
    assert!(session_id_is_valid(&session));
    let mut store = BTreeMap::new();
    for hash in &start.missing {
        let block = index.get(hash).expect("local block");
        let (_, _, content) = contents
            .iter()
            .find(|(_, from, _)| *from == block.path)
            .expect("a file");
        let from = block.offset as usize;
        let raw = content[from..from + block.len as usize].to_vec();
        assert_eq!(store_cas_block(hash, &raw), Ok(StoreStep::Write));
        store.insert(hash.clone(), raw);
    }

    assert!(check_commit("target", &manifest, NOTHING_THERE).is_none());
    let required = required_blocks(&manifest);
    let present: Vec<bool> = required
        .iter()
        .map(|block| store.contains_key(&block.sha256))
        .collect();
    assert!(verify_cas_manifest_blocks_exist(&required, &present).is_none());
    assert_eq!(rebuilt(&manifest.files[0], &store), b"rootfs-data");
    assert!(check_imported("source", true).is_none());
    let response = import_response("target", "source", manifest.start, None);
    assert!(response.ok);
    assert_eq!(response.instance, "target");
}

#[test]
fn copies_sparse_file_without_materializing_holes() {
    let len = 64 * 1024 * 1024u64;
    let at = 9 * 1024 * 1024usize;
    let mut src = vec![0u8; len as usize];
    src[at..at + 18].copy_from_slice(b"data-in-the-middle");

    assert_eq!(copy_step(len, CopySeen::Begin { allocated: 4096 }), CopyStep::Clone);
    assert_eq!(
        copy_step(len, CopySeen::NotCloned(CloneError::NotSupported)),
        CopyStep::CopyAll
    );
    let mut walk = ExtentWalk::new(len);
    walk.found(at as u64, at as u64 + 4096);
    assert!(!walk.is_done());
    let mut dst = vec![0u8; len as usize];
    let mut allocated = 0u64;
    for Span { offset, len } in &walk.extents {
        let from = *offset as usize;
        let to = from + *len as usize;
        dst[from..to].copy_from_slice(&src[from..to]);
        allocated += len;
    }
    assert!(src == dst, "contents must match");
    assert!(
        allocated < 16 * 1024 * 1024,
        "destination must stay sparse, allocated {} bytes",
        allocated
    );
}

fn address(a: u8, b: u8, c: u8, d: u8) -> u32 {
    u32::from_be_bytes([a, b, c, d])
}

#[test]
fn vmnet_parses_subnet_specs() {
    let (subnet, prefix) = parse_subnet("192.168.106.0/24").expect("parse");
    assert_eq!(subnet, address(192, 168, 106, 0));
    assert_eq!(prefix, 24);

    assert!(parse_subnet("192.168.106.0").is_err());
    assert!(parse_subnet("192.168.106.1/24").is_err());
    assert!(parse_subnet("192.168.106.0/31").is_err());
    assert!(parse_subnet("bogus/24").is_err());
}

#[test]
fn tests_parses_subnet_specs() {
    let (subnet, prefix) = parse_subnet("192.168.106.0/24").expect("parse");
    assert_eq!(subnet, address(192, 168, 106, 0));
    assert_eq!(prefix, 24);

    assert!(parse_subnet("192.168.106.0").is_err());
    assert!(parse_subnet("192.168.106.1/24").is_err());
    assert!(parse_subnet("192.168.106.0/31").is_err());
    assert!(parse_subnet("bogus/24").is_err());
}

#[test]
fn vmnet_computes_mask_and_gateway() {
    assert_eq!(mask_for_prefix(24), address(255, 255, 255, 0));
    assert_eq!(mask_for_prefix(16), address(255, 255, 0, 0));
    assert_eq!(
        gateway_for_subnet(address(192, 168, 106, 0)),
        address(192, 168, 106, 1)
    );
}

#[test]
fn full_blocks_of_zeros_need_no_store() {
    let zeros = vec![0u8; CAS_BLOCK_SIZE as usize];
    assert_eq!(sha256_hex(&zeros), zero_block_hash());
    assert_eq!(
        store_cas_block(&zero_block_hash(), &zeros),
        Ok(StoreStep::Skip)
    );
}
