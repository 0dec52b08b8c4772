//! Starting a VM: what it is restored from, and how the hypervisor is set up.
use vstd::prelude::*;

use crate::config::RunConfig;
use crate::deterministic;
use crate::launch;
use crate::launch::LaunchMetadata;
use crate::launch::LaunchRead;
use crate::launch::ShareLayout;
use crate::paths;
use crate::settings::RootfsBackend;
use crate::shares;
use crate::snapshots;
use crate::snapshots::HeaderError;
use crate::snapshots::HeaderRead;
use crate::snapshots::InitramfsMismatch;
use crate::snapshots::PreparedRestore;
use crate::snapshots::SnapshotVmConfig;
use crate::stamps::FileText;
use crate::text;
use crate::trace;
use crate::trace::TraceEvent;
use crate::trace::TraceField;

verus! {

/// Why a VM is not started.
#[derive(Debug, PartialEq, Eq)]
pub enum StartError {
    NoHome,
    /// The record of the snapshot's shares cannot be read.
    SharesUnreadable { path: String, error: String },
    /// The snapshot has another guest agent.
    Initramfs(InitramfsMismatch),
    /// The snapshot was launched in another way.
    Launch { reason: String, path: String, instance: String },
    /// The snapshot has another deterministic mode.
    Deterministic { reason: String, path: String },
    /// The snapshot has another size.
    VmConfig { snapshot: SnapshotVmConfig, cpus: u8, memory_mib: u32 },
    /// The state of the snapshot cannot be read.
    Header { path: String, problem: HeaderError },
}

impl StartError {
    /// The message shown to the user.
    pub open spec fn text(self) -> Seq<char> {
        match self {
            StartError::NoHome => "host home directory"@,
            StartError::SharesUnreadable { path, error } => "read "@ + path@ + ": "@ + error@,
            StartError::Initramfs(e) => "snapshot initramfs is incompatible with the current guest agent: snapshot="@
                + e.snapshot_stamp@ + " current="@ + e.current_stamp@ + "\n"@ + e.guidance@,
            StartError::Launch { reason, path, instance } => "snapshot launch metadata is incompatible ("@
                + reason@ + "): "@ + path@ + "\nrecovery: lnx --instance "@ + instance@
                + " snapshots clear"@,
            StartError::Deterministic { reason, path } => "snapshot deterministic stamp is incompatible ("@
                + reason@ + "): "@ + path@,
            StartError::VmConfig { snapshot, cpus, memory_mib } => "snapshot VM config mismatch: snapshot_cpus="@
                + text::dec(snapshot.vcpu_count as nat) + " configured_cpus="@ + text::dec(
                cpus as nat,
            ) + " snapshot_memory_mib="@ + text::dec((snapshot.memory_bytes / 1048576) as nat)
                + " configured_memory_mib="@ + text::dec(memory_mib as nat),
            StartError::Header { path, problem } => "read snapshot header from "@ + path@ + ": "@
                + problem.text(),
        }
    }

    /// The message shown to the user.
    pub fn message(&self) -> (m: String)
        ensures
            m@ == self.text(),
    {
        match self {
            StartError::NoHome => "host home directory".to_owned(),
            StartError::SharesUnreadable { path, error } => {
                let mut m: String = "read ".to_owned();
                m.append(path.as_str());
                m.append(": ");
                m.append(error.as_str());
                m
            },
            StartError::Initramfs(e) => e.message(),
            StartError::Launch { reason, path, instance } => {
                let mut m: String = "snapshot launch metadata is incompatible (".to_owned();
                m.append(reason.as_str());
                m.append("): ");
                m.append(path.as_str());
                m.append("\nrecovery: lnx --instance ");
                m.append(instance.as_str());
                m.append(" snapshots clear");
                m
            },
            StartError::Deterministic { reason, path } => {
                let mut m: String = "snapshot deterministic stamp is incompatible (".to_owned();
                m.append(reason.as_str());
                m.append("): ");
                m.append(path.as_str());
                m
            },
            StartError::VmConfig { snapshot, cpus, memory_mib } => {
                let mut m: String = "snapshot VM config mismatch: snapshot_cpus=".to_owned();
                text::push_dec(&mut m, snapshot.vcpu_count as u128);
                m.append(" configured_cpus=");
                text::push_dec(&mut m, *cpus as u128);
                m.append(" snapshot_memory_mib=");
                text::push_dec(&mut m, snapshot.memory_mib() as u128);
                m.append(" configured_memory_mib=");
                text::push_dec(&mut m, *memory_mib as u128);
                m
            },
            StartError::Header { path, problem } => {
                let mut m: String = "read snapshot header from ".to_owned();
                m.append(path.as_str());
                m.append(": ");
                m.append(problem.message().as_str());
                m
            },
        }
    }
}

// ---------------------------------------------------------------------------
// Shares
// ---------------------------------------------------------------------------

/// The shares that a VM starts with.
#[derive(Debug, PartialEq, Eq)]
pub struct StartShares {
    pub metadata: LaunchMetadata,
    pub layout: ShareLayout,
    /// Whether they are those of the snapshot.
    pub from_snapshot: bool,
}

/// Whether shares are those of a launch that is asked for.
pub open spec fn are_requested(s: StartShares, config: RunConfig, home: Seq<char>) -> bool {
    &&& !s.from_snapshot
    &&& launch::is_requested_launch(s.metadata, config, home)
    &&& s.layout.host_home@ == home
    &&& text::opt_string(s.layout.outside_home_cwd) == launch::outside_home(config.cwd@, home)
    &&& s.layout.no_host_shares == config.no_host_shares
}

/// Whether shares are those that a snapshot was taken with.
pub open spec fn are_recorded(s: StartShares, m: LaunchMetadata) -> bool {
    &&& s.from_snapshot
    &&& s.metadata == m
    &&& s.layout.host_home@ == (match m.shares.host_home {
        Some(home) => home@,
        None => Seq::<char>::empty(),
    })
    &&& text::opt_string(s.layout.outside_home_cwd) == text::opt_string(m.shares.outside_home_cwd)
    &&& s.layout.no_host_shares == m.shares.no_host_shares
}

/// Chooses the shares that a VM starts with: those of the snapshot that it is restored
/// from, where that was launched the same way, and else those that are asked for.
/// `record` is what came of reading the snapshot's record.
pub fn start_shares(config: &RunConfig, own_home: Option<&str>, record: LaunchRead) -> (r: Result<
    StartShares,
    StartError,
>)
    ensures
        match launch::home_for(config.cwd@, text::opt_view(own_home)) {
            None => r matches Err(StartError::NoHome),
            Some(home) => {
                let requested = launch::requested_launch(
                    home,
                    config.no_host_shares,
                    launch::requested_mounts(config.vhost_user_fs@),
                );
                match (config.restore_snapshot, record) {
                    (Some(snapshot), LaunchRead::Failed(e)) => r matches Err(
                        StartError::SharesUnreadable { path, error },
                    ) && path@ == paths::joined(snapshot@, snapshots::LAUNCH_METADATA@) && error@
                        == e@,
                    (Some(_), LaunchRead::Found(m)) => if launch::launches_match(m@, requested) {
                        r matches Ok(s) && are_recorded(s, m)
                    } else {
                        r matches Ok(s) && are_requested(s, *config, home)
                    },
                    _ => r matches Ok(s) && are_requested(s, *config, home),
                }
            },
        },
{
    let home: String = match launch::host_home_for_cwd(config.cwd.as_str(), own_home) {
        Ok(home) => home,
        Err(_) => return Err(StartError::NoHome),
    };
    let metadata: LaunchMetadata = match launch::launch_metadata_for_config(config, own_home) {
        Ok(m) => m,
        Err(_) => return Err(StartError::NoHome),
    };
    if let Some(snapshot) = &config.restore_snapshot {
        match record {
            LaunchRead::Failed(error) => {
                let path: String = paths::join(snapshot.as_str(), snapshots::LAUNCH_METADATA);
                return Err(StartError::SharesUnreadable { path, error });
            },
            LaunchRead::Found(m) => {
                if launch::launch_metadata_matches_ignoring_cwd(&m, &metadata) {
                    let s: launch::SnapshotShareLayout = launch::snapshot_share_layout(m);
                    return Ok(
                        StartShares { metadata: s.metadata, layout: s.layout, from_snapshot: true },
                    );
                }
            },
            LaunchRead::Missing => {},
        }
    }
    let outside: Option<String> = launch::outside_home_cwd(config.cwd.as_str(), home.as_str());
    Ok(
        StartShares {
            metadata,
            layout: ShareLayout {
                host_home: home,
                outside_home_cwd: outside,
                no_host_shares: config.no_host_shares,
            },
            from_snapshot: false,
        },
    )
}

// ---------------------------------------------------------------------------
// Restoring
// ---------------------------------------------------------------------------

/// What came of reading the files that say whether a snapshot fits.
#[derive(Debug, PartialEq, Eq)]
pub struct SnapshotFiles<'a> {
    pub initramfs: &'a FileText,
    pub launch: &'a LaunchRead,
    pub deterministic: &'a FileText,
    pub header: &'a HeaderRead,
    /// Where the snapshot and the published one are, where that can be resolved.
    pub place: Option<&'a str>,
    pub latest_place: Option<&'a str>,
}

/// Whether the state of a snapshot is that of a VM of another size.
pub open spec fn has_other_size(header: HeaderRead, cpus: u8, memory_mib: u32) -> bool {
    header matches HeaderRead::Read(b) && {
        let c = snapshots::config_in(b@);
        !(c.vcpu_count == cpus && c.memory_bytes / 1048576 == memory_mib)
    }
}

/// Whether a snapshot has the guest agent that would be restored.
pub open spec fn agents_match(snapshot: FileText, current: FileText) -> bool {
    snapshots::key_of_file(snapshot) is Some && snapshots::key_of_file(snapshot)
        == snapshots::key_of_file(current)
}

/// Checks that a snapshot can be restored into a VM: its guest agent, its launch, its
/// deterministic mode and its size must all fit. The first that does not is the answer.
/// `metadata` is the launch of the VM, `stamp` its deterministic mode, and `current` what
/// came of reading its guest agent's stamp at `current_path`.
pub fn accept_restore(
    config: &RunConfig,
    snapshot: &str,
    files: &SnapshotFiles,
    metadata: &LaunchMetadata,
    stamp: &str,
    current_path: &str,
    current: &FileText,
) -> (r: Result<(), StartError>)
    requires
        *files.header matches HeaderRead::Read(b) ==> b@.len() == snapshots::VMSTATE_HEADER_LEN,
    ensures
        r is Ok <==> {
            &&& agents_match(*files.initramfs, *current)
            &&& launch::incompatibility(*files.launch, metadata@) is None
            &&& deterministic::snapshot_stamp_problem(*files.deterministic, stamp@) is None
            &&& snapshots::header_is_good(*files.header)
            &&& !has_other_size(*files.header, config.cpus, config.memory_mib)
        },
        r matches Err(e) ==> {
            if !agents_match(*files.initramfs, *current) {
                e matches StartError::Initramfs(m) && m.snapshot_stamp@ == paths::joined(
                    snapshot@,
                    "initramfs.stamp"@,
                ) && m.current_stamp@ == current_path@ && m.guidance@ == snapshots::guidance_text(
                    config.layout.instance@,
                    snapshots::same_snapshot(
                        snapshot@,
                        paths::joined(config.layout.snapshot_dir@, "latest"@),
                        text::opt_view(files.place),
                        text::opt_view(files.latest_place),
                    ),
                )
            } else if let Some(why) = launch::incompatibility(*files.launch, metadata@) {
                e matches StartError::Launch { reason, path, instance } && reason@ == why && path@
                    == paths::joined(snapshot@, snapshots::LAUNCH_METADATA@) && instance@
                    == config.layout.instance@
            } else if let Some(why) = deterministic::snapshot_stamp_problem(
                *files.deterministic,
                stamp@,
            ) {
                e matches StartError::Deterministic { reason, path } && reason@ == why && path@
                    == paths::joined(snapshot@, "deterministic.stamp"@)
            } else if !snapshots::header_is_good(*files.header) {
                e matches StartError::Header { path, problem } && path@ == paths::joined(
                    snapshot@,
                    "vmstate.bin"@,
                ) && snapshots::is_header_error(snapshot@, *files.header, problem)
            } else {
                e matches StartError::VmConfig { snapshot: c, cpus, memory_mib } && cpus
                    == config.cpus && memory_mib == config.memory_mib && (*files.header matches
                    HeaderRead::Read(b) && c == snapshots::config_in(b@))
            }
        },
{
    if let Err(e) = snapshots::validate_snapshot_initramfs_compatibility(
        &config.layout,
        snapshot,
        current_path,
        files.initramfs,
        current,
        files.place,
        files.latest_place,
    ) {
        return Err(StartError::Initramfs(e));
    }
    if let Some(reason) = launch::snapshot_launch_incompatibility(files.launch, metadata) {
        return Err(
            StartError::Launch {
                reason,
                path: paths::join(snapshot, snapshots::LAUNCH_METADATA),
                instance: config.layout.instance.clone(),
            },
        );
    }
    if let Some(reason) = deterministic::snapshot_deterministic_incompatibility(
        files.deterministic,
        stamp,
    ) {
        return Err(
            StartError::Deterministic { reason, path: paths::join(snapshot, "deterministic.stamp") },
        );
    }
    match snapshots::snapshot_vm_config(snapshot, files.header) {
        Err(problem) => Err(
            StartError::Header { path: paths::join(snapshot, "vmstate.bin"), problem },
        ),
        Ok(None) => Ok(()),
        Ok(Some(found)) => if found.matches(config.cpus, config.memory_mib) {
            Ok(())
        } else {
            Err(
                StartError::VmConfig {
                    snapshot: found,
                    cpus: config.cpus,
                    memory_mib: config.memory_mib,
                },
            )
        },
    }
}

// ---------------------------------------------------------------------------
// The hypervisor
// ---------------------------------------------------------------------------

/// A host directory that the guest gets as a file system.
#[derive(Debug, PartialEq, Eq)]
pub struct SharedDir {
    pub tag: &'static str,
    pub root: String,
    /// What the guest may write to, relative to the directory.
    pub writable: Vec<String>,
    /// Where what the guest hides is kept.
    pub unshare_dir: String,
}

/// A shared directory, as plain values.
pub struct SharedDirView {
    pub tag: Seq<char>,
    pub root: Seq<char>,
    pub writable: Seq<Seq<char>>,
    pub unshare_dir: Seq<char>,
}

impl SharedDir {
    /// The directory, as plain values.
    pub open spec fn view(self) -> SharedDirView {
        SharedDirView {
            tag: self.tag@,
            root: self.root@,
            writable: text::views(self.writable@),
            unshare_dir: self.unshare_dir@,
        }
    }
}

/// Shared directories, as plain values.
pub open spec fn dir_views(dirs: Seq<SharedDir>) -> Seq<SharedDirView> {
    Seq::new(dirs.len(), |i: int| dirs[i].view())
}

/// The directories that a guest gets: the home, with the working directory writable, and
/// a working directory outside it, all of it writable.
pub open spec fn shared_dirs(
    cwd: Seq<char>,
    instance_dir: Seq<char>,
    home: Seq<char>,
    outside: Option<Seq<char>>,
    no_host_shares: bool,
) -> Seq<SharedDirView> {
    let state = paths::joined(instance_dir, "host-share-state"@);
    if no_host_shares {
        Seq::empty()
    } else {
        let first = SharedDirView {
            tag: "home"@,
            root: home,
            writable: shares::home_writes(cwd, home),
            unshare_dir: paths::joined(state, "home"@),
        };
        match outside {
            None => seq![first],
            Some(dir) => seq![
                first,
                SharedDirView {
                    tag: "cwd"@,
                    root: dir,
                    writable: seq!["."@],
                    unshare_dir: paths::joined(state, "cwd"@),
                },
            ],
        }
    }
}

/// The directories that a guest gets.
pub fn shared_directories(config: &RunConfig, layout: &ShareLayout) -> (r: Vec<SharedDir>)
    ensures
        dir_views(r@) == shared_dirs(
            config.cwd@,
            config.layout.instance_dir@,
            layout.host_home@,
            text::opt_string(layout.outside_home_cwd),
            layout.no_host_shares,
        ),
        layout.no_host_shares ==> r@.len() == 0,
        !layout.no_host_shares ==> {
            &&& r@.len() == (if layout.outside_home_cwd is Some {
                2int
            } else {
                1int
            })
            &&& r@[0].tag@ == "home"@ && r@[0].root@ == layout.host_home@
            &&& paths::lies_in(config.cwd@, layout.host_home@) ==> r@[0].writable@.len() == 1 && ((
            r@[0].writable@[0]@ == "."@ && paths::components(config.cwd@) == paths::components(
                layout.host_home@,
            )) || paths::components(layout.host_home@) + paths::components(
                r@[0].writable@[0]@,
            ) == paths::components(config.cwd@))
            &&& !paths::lies_in(config.cwd@, layout.host_home@) ==> r@[0].writable@.len() == 0
            &&& layout.outside_home_cwd matches Some(dir) ==> {
                &&& r@[1].tag@ == "cwd"@ && r@[1].root@ == dir@
                &&& r@[1].writable@.len() == 1 && r@[1].writable@[0]@ == "."@
            }
        },
{
    let mut r: Vec<SharedDir> = Vec::new();
    if !layout.no_host_shares {
        r.push(
            SharedDir {
                tag: "home",
                root: layout.host_home.clone(),
                writable: shares::home_write_allowlist(
                    config.cwd.as_str(),
                    layout.host_home.as_str(),
                ),
                unshare_dir: shares::host_share_unshare_dir(&config.layout, "home"),
            },
        );
        if let Some(dir) = &layout.outside_home_cwd {
            r.push(
                SharedDir {
                    tag: "cwd",
                    root: dir.clone(),
                    writable: shares::cwd_write_allowlist(),
                    unshare_dir: shares::host_share_unshare_dir(&config.layout, "cwd"),
                },
            );
            proof {
                let w = r@[1].writable@;
                assert(text::views(w) == seq!["."@]);
                assert(w.len() == text::views(w).len());
                assert(text::views(w)[0] == w[0]@);
            }
        }
    }
    assert(dir_views(r@) =~= shared_dirs(
        config.cwd@,
        config.layout.instance_dir@,
        layout.host_home@,
        text::opt_string(layout.outside_home_cwd),
        layout.no_host_shares,
    ));
    r
}

/// The command line of the guest's kernel.
pub open spec fn kernel_line(root_device: Seq<char>, arm: bool, nested_kvm: bool) -> Seq<char> {
    let base = "console=hvc0 reboot=k panic=1 root="@ + root_device + " rw rootfstype=ext4"@;
    let machine = if arm {
        base + " arm64.nopauth"@
    } else {
        base
    };
    let flags = machine + " rootflags=dax"@;
    if nested_kvm {
        flags + " kvm.allow_unsafe_mappings=1"@
    } else {
        flags
    }
}

/// The command line of the guest's kernel.
pub fn kernel_cmdline(root_device: &str, arm: bool, nested_kvm: bool) -> (s: String)
    ensures
        s@ == kernel_line(root_device@, arm, nested_kvm),
{
    let mut s: String = "console=hvc0 reboot=k panic=1 root=".to_owned();
    s.append(root_device);
    s.append(" rw rootfstype=ext4");
    if arm {
        s.append(" arm64.nopauth");
    }
    s.append(" rootflags=dax");
    if nested_kvm {
        s.append(" kvm.allow_unsafe_mappings=1");
    }
    s
}

/// The environment of the guest's first process.
pub open spec fn init_vars(
    unix_secs: nat,
    root_device: Seq<char>,
    net_ip: Seq<char>,
    net_gateway: Seq<char>,
    home: Seq<char>,
    cwd: Seq<char>,
    mounts: Seq<char>,
) -> Seq<Seq<char>> {
    seq![
        "PATH=/usr/local/sbin:/usr/local/bin:/usr/sbin:/usr/bin:/sbin:/bin"@,
        "container=lnx"@,
        "LNX_HOST_UNIX_SECS="@ + text::dec(unix_secs),
        "LNX_ROOT_DEVICE="@ + root_device,
        "LNX_NET_IP="@ + net_ip,
        "LNX_NET_GATEWAY="@ + net_gateway,
        "LNX_VIRTIOFS_HOME="@ + home,
        "LNX_VIRTIOFS_CWD="@ + cwd,
        "LNX_VHOST_USER_FS="@ + mounts,
    ]
}

/// The home that a guest is told of.
pub open spec fn told_home(layout: ShareLayout) -> Seq<char> {
    if layout.no_host_shares {
        Seq::empty()
    } else {
        layout.host_home@
    }
}

/// The working directory outside the home that a guest is told of.
pub open spec fn told_cwd(layout: ShareLayout) -> Seq<char> {
    if layout.no_host_shares {
        Seq::empty()
    } else {
        match layout.outside_home_cwd {
            Some(dir) => dir@,
            None => Seq::empty(),
        }
    }
}

fn assign(name: &str, value: &str) -> (s: String)
    ensures
        s@ == name@ + value@,
{
    let mut s: String = name.to_owned();
    s.append(value);
    s
}

/// The environment of the guest's first process. In deterministic mode its clock starts
/// at zero. Without addresses it sets up its network by itself.
pub fn init_env(
    config: &RunConfig,
    layout: &ShareLayout,
    root_device: &str,
    net_ip: &str,
    net_gateway: &str,
    host_unix_secs: u64,
) -> (env: Vec<String>)
    ensures
        text::views(env@) == init_vars(
            if config.deterministic is Some {
                0
            } else {
                host_unix_secs as nat
            },
            root_device@,
            net_ip@,
            net_gateway@,
            told_home(*layout),
            told_cwd(*layout),
            launch::guest_mounts(launch::requested_mounts(config.vhost_user_fs@)),
        ),
{
    let secs: u64 = if config.deterministic.is_some() {
        0
    } else {
        host_unix_secs
    };
    let mut home: String = String::new();
    let mut cwd: String = String::new();
    if !layout.no_host_shares {
        home = shares::guest_home(layout.host_home.as_str());
        if let Some(dir) = &layout.outside_home_cwd {
            cwd = shares::guest_cwd(dir.as_str());
        }
    }
    let mut env: Vec<String> = Vec::new();
    env.push("PATH=/usr/local/sbin:/usr/local/bin:/usr/sbin:/usr/bin:/sbin:/bin".to_owned());
    env.push("container=lnx".to_owned());
    env.push(assign("LNX_HOST_UNIX_SECS=", text::decimal(secs as u128).as_str()));
    env.push(assign("LNX_ROOT_DEVICE=", root_device));
    env.push(assign("LNX_NET_IP=", net_ip));
    env.push(assign("LNX_NET_GATEWAY=", net_gateway));
    env.push(assign("LNX_VIRTIOFS_HOME=", home.as_str()));
    env.push(assign("LNX_VIRTIOFS_CWD=", cwd.as_str()));
    let mounts: String = launch::vhost_user_fs_guest_env(&config.vhost_user_fs);
    env.push(assign("LNX_VHOST_USER_FS=", mounts.as_str()));
    assert(text::views(env@) =~= init_vars(
        secs as nat,
        root_device@,
        net_ip@,
        net_gateway@,
        told_home(*layout),
        told_cwd(*layout),
        launch::guest_mounts(launch::requested_mounts(config.vhost_user_fs@)),
    ));
    env
}

/// Where the disk of a VM comes from.
#[derive(Clone, Copy, PartialEq, Eq, Structural, Debug)]
pub enum RootfsRole {
    RestoreLiveClone,
    Canonical,
}

impl RootfsRole {
    /// The name of the role, in the run log.
    pub fn name(&self) -> (s: &'static str)
        ensures
            s@ == (match *self {
                RootfsRole::RestoreLiveClone => "restore-live-clone"@,
                RootfsRole::Canonical => "canonical"@,
            }),
    {
        match self {
            RootfsRole::RestoreLiveClone => "restore-live-clone",
            RootfsRole::Canonical => "canonical",
        }
    }
}

/// How a VM is set up.
#[derive(Debug, PartialEq, Eq)]
pub struct VmPlan {
    pub rootfs: String,
    pub role: RootfsRole,
    /// Whether the disk is another one than that of a cold boot.
    pub is_snapshot_rootfs: bool,
    pub root_device: &'static str,
    pub kernel_cmdline: String,
    pub shares: Vec<SharedDir>,
    pub init_env: Vec<String>,
    /// Where the VM's state goes when it ends.
    pub snapshot_output: String,
    /// Whether the disk of that snapshot becomes the disk of a cold boot.
    pub promote_rootfs: bool,
}

/// Where the state of a VM goes when it ends: where the user asked, or else to the
/// published snapshot.
pub open spec fn output_of(config: RunConfig) -> Seq<char> {
    match config.snapshot_output {
        Some(path) => path@,
        None => paths::joined(config.layout.snapshot_dir@, "latest"@),
    }
}

/// Whether the disk of the final snapshot becomes the disk of a cold boot: when the
/// published snapshot was restored and is replaced.
pub open spec fn promotes(config: RunConfig, restored: bool) -> bool {
    let latest = paths::components(paths::joined(config.layout.snapshot_dir@, "latest"@));
    &&& restored
    &&& paths::components(output_of(config)) == latest
    &&& (config.restore_snapshot matches Some(s) && paths::components(s@) == latest)
}

/// Plans a VM. `restore` is the snapshot that it is restored from, once that was accepted
/// and copied; `arm` says whether the host has an Arm processor.
pub fn plan_vm(
    config: &RunConfig,
    layout: &ShareLayout,
    restore: Option<&PreparedRestore>,
    backend: RootfsBackend,
    arm: bool,
    net_ip: &str,
    net_gateway: &str,
    host_unix_secs: u64,
) -> (plan: VmPlan)
    ensures
        plan.rootfs@ == (match restore {
            Some(r) => r.rootfs@,
            None => config.layout.rootfs@,
        }),
        plan.role == (if restore is Some {
            RootfsRole::RestoreLiveClone
        } else {
            RootfsRole::Canonical
        }),
        plan.is_snapshot_rootfs == (paths::components(plan.rootfs@) != paths::components(
            config.layout.rootfs@,
        )),
        plan.root_device@ == "/dev/pmem0"@,
        plan.kernel_cmdline@ == kernel_line("/dev/pmem0"@, arm, config.nested_kvm),
        dir_views(plan.shares@) == shared_dirs(
            config.cwd@,
            config.layout.instance_dir@,
            layout.host_home@,
            text::opt_string(layout.outside_home_cwd),
            layout.no_host_shares,
        ),
        text::views(plan.init_env@) == init_vars(
            if config.deterministic is Some {
                0
            } else {
                host_unix_secs as nat
            },
            "/dev/pmem0"@,
            net_ip@,
            net_gateway@,
            told_home(*layout),
            told_cwd(*layout),
            launch::guest_mounts(launch::requested_mounts(config.vhost_user_fs@)),
        ),
        plan.snapshot_output@ == output_of(*config),
        plan.promote_rootfs == promotes(*config, restore is Some),
        restore is Some && (config.restore_snapshot matches Some(s) && paths::components(s@)
            == paths::components(config.layout.snapshot_dir@).push("latest"@)) && (
        config.snapshot_output matches Some(o) ==> paths::components(o@) == paths::components(
            config.layout.snapshot_dir@,
        ).push("latest"@)) ==> plan.promote_rootfs,
        plan.promote_rootfs ==> {
            &&& restore is Some
            &&& config.restore_snapshot matches Some(s) && paths::components(s@)
                == paths::components(config.layout.snapshot_dir@).push("latest"@)
            &&& paths::components(plan.snapshot_output@) == paths::components(
                config.layout.snapshot_dir@,
            ).push("latest"@)
        },
        config.snapshot_output matches Some(o) ==> plan.snapshot_output@ == o@,
        config.snapshot_output is None ==> paths::components(plan.snapshot_output@)
            == paths::components(config.layout.snapshot_dir@).push("latest"@),
        layout.no_host_shares ==> plan.shares@.len() == 0,
        !layout.no_host_shares ==> {
            &&& plan.shares@.len() == (if layout.outside_home_cwd is Some {
                2int
            } else {
                1int
            })
            &&& plan.shares@[0].tag@ == "home"@ && plan.shares@[0].root@ == layout.host_home@
            &&& paths::lies_in(config.cwd@, layout.host_home@) ==> plan.shares@[0].writable@.len() == 1 && ((
            plan.shares@[0].writable@[0]@ == "."@ && paths::components(config.cwd@) == paths::components(
                layout.host_home@,
            )) || paths::components(layout.host_home@) + paths::components(
                plan.shares@[0].writable@[0]@,
            ) == paths::components(config.cwd@))
            &&& !paths::lies_in(config.cwd@, layout.host_home@) ==> plan.shares@[0].writable@.len() == 0
            &&& layout.outside_home_cwd matches Some(dir) ==> {
                &&& plan.shares@[1].tag@ == "cwd"@ && plan.shares@[1].root@ == dir@
                &&& plan.shares@[1].writable@.len() == 1 && plan.shares@[1].writable@[0]@ == "."@
            }
        },
{
    proof {
        lemma_latest_in(config.layout.snapshot_dir@);
    }
    let rootfs: String = match restore {
        Some(r) => r.rootfs.clone(),
        None => config.layout.rootfs.clone(),
    };
    let role: RootfsRole = if restore.is_some() {
        RootfsRole::RestoreLiveClone
    } else {
        RootfsRole::Canonical
    };
    let is_snapshot_rootfs: bool = !paths::same_path(
        rootfs.as_str(),
        config.layout.rootfs.as_str(),
    );
    let root_device: &'static str = backend.root_device();
    let latest: String = paths::join(config.layout.snapshot_dir.as_str(), "latest");
    let snapshot_output: String = match &config.snapshot_output {
        Some(path) => path.clone(),
        None => latest.clone(),
    };
    let requested_latest: bool = match &config.restore_snapshot {
        Some(s) => paths::same_path(s.as_str(), latest.as_str()),
        None => false,
    };
    let promote_rootfs: bool = restore.is_some() && paths::same_path(
        snapshot_output.as_str(),
        latest.as_str(),
    ) && requested_latest;
    VmPlan {
        rootfs,
        role,
        is_snapshot_rootfs,
        root_device,
        kernel_cmdline: kernel_cmdline(root_device, arm, config.nested_kvm),
        shares: shared_directories(config, layout),
        init_env: init_env(config, layout, root_device, net_ip, net_gateway, host_unix_secs),
        snapshot_output,
        promote_rootfs,
    }
}

/// The published snapshot stands under its name in the directory of snapshots.
proof fn lemma_latest_in(dir: Seq<char>)
    ensures
        paths::components(paths::joined(dir, "latest"@)) == paths::components(dir).push("latest"@),
{
    reveal_strlit("latest");
    assert("latest"@ =~= seq!['l', 'a', 't', 'e', 's', 't']);
    assert("latest"@.len() == 6);
    assert forall|i: int| 0 <= i < 6 implies "latest"@[i] != '/' by {}
    paths::lemma_name_in_directory(dir, "latest"@);
}

/// The disk of the final snapshot becomes the disk of a cold boot exactly when the VM was
/// restored from the published snapshot, and its own snapshot takes the place of that.
pub proof fn lemma_promotes_the_published_disk(config: RunConfig, restored: bool)
    ensures
        promotes(config, restored) <==> {
            let latest = paths::components(config.layout.snapshot_dir@).push("latest"@);
            &&& restored
            &&& config.restore_snapshot matches Some(s) && paths::components(s@) == latest
            &&& config.snapshot_output matches Some(o) ==> paths::components(o@) == latest
        },
{
    lemma_latest_in(config.layout.snapshot_dir@);
}

/// A VM that is not restored never promotes a disk: a cold boot already writes to the
/// disk of a cold boot.
pub proof fn lemma_cold_boot_promotes_nothing(config: RunConfig)
    ensures
        !promotes(config, false),
{
}

/// The event for the start of a VM.
pub open spec fn vm_start_fields(config: RunConfig) -> Seq<trace::FieldView> {
    let base = seq![
        trace::text_field("instance"@, config.layout.instance@),
        trace::integer_field("cpus"@, config.cpus as int),
        trace::integer_field("memory_mib"@, config.memory_mib as int),
        trace::bool_field("nested_kvm"@, config.nested_kvm),
        trace::bool_field("no_host_shares"@, config.no_host_shares),
        trace::bool_field("restore_snapshot"@, config.restore_snapshot is Some),
        trace::text_field("network"@, "embedded-gvproxy"@),
    ];
    match config.deterministic {
        Some(d) => base + seq![
            trace::text_field("seed"@, d.seed@),
            trace::integer_field("initial_realtime_unix_secs"@, 0),
        ],
        None => base,
    }
}

/// The event for the start of a VM.
pub fn trace_vm_start(config: &RunConfig) -> (e: TraceEvent)
    ensures
        e.view() == (trace::EventView {
            name: "vm_start_config"@,
            fields: vm_start_fields(*config),
        }),
{
    let mut fields: Vec<TraceField> = Vec::new();
    fields.push(trace::trace_text("instance", config.layout.instance.clone()));
    fields.push(trace::trace_integer("cpus", config.cpus as i64));
    fields.push(trace::trace_integer("memory_mib", config.memory_mib as i64));
    fields.push(trace::trace_bool("nested_kvm", config.nested_kvm));
    fields.push(trace::trace_bool("no_host_shares", config.no_host_shares));
    fields.push(trace::trace_bool("restore_snapshot", config.restore_snapshot.is_some()));
    fields.push(trace::trace_text("network", "embedded-gvproxy".to_owned()));
    if let Some(d) = &config.deterministic {
        fields.push(trace::trace_text("seed", d.seed.clone()));
        fields.push(trace::trace_integer("initial_realtime_unix_secs", 0));
    }
    assert(trace::fields_view(fields@) =~= vm_start_fields(*config));
    TraceEvent { name: "vm_start_config", fields }
}

// ---------------------------------------------------------------------------
// Laws of a start
// ---------------------------------------------------------------------------

/// A snapshot fits the size of a VM exactly where its state has as many processors and as
/// many whole MiB of memory; where there is no state, nothing is compared.
pub proof fn lemma_fitting_size(b: Vec<u8>, mib: u32, odd: u32, vcpus: u32, cpus: u8, memory: u32)
    requires
        b@.len() == 40,
        odd < 1048576,
        b@.subrange(16, 24) == crate::bytes::le_bytes((1048576 * mib + odd) as nat, 8),
        b@.subrange(32, 36) == crate::bytes::le_bytes(vcpus as nat, 4),
    ensures
        has_other_size(HeaderRead::Read(b), cpus, memory) <==> !(vcpus == cpus && mib == memory),
        !has_other_size(HeaderRead::Missing, cpus, memory),
{
    crate::bytes::lemma_byte_ranges();
    crate::bytes::lemma_le_round_trip((1048576 * mib + odd) as nat, 8);
    crate::bytes::lemma_le_round_trip(vcpus as nat, 4);
    assert((1048576 * mib + odd) / 1048576 == mib);
}

/// A guest agent fits where both stamps name one and it is the same, whichever is asked
/// first; a stamp that is missing or cannot be read never fits.
pub proof fn lemma_fitting_agents(a: FileText, b: FileText)
    ensures
        agents_match(a, b) == agents_match(b, a),
        !(a is Found) ==> !agents_match(a, b),
        (a matches FileText::Found(x) && (b matches FileText::Found(y) && snapshots::initramfs_key(
            x@,
        ) is Some && snapshots::initramfs_key(x@) == snapshots::initramfs_key(y@)))
            <==> agents_match(a, b),
{
}

/// What a guest gets of the host: nothing where shares are off; else the home, and the
/// working directory beside it exactly where that lies outside, each with a directory of
/// its own for what the guest hides.
pub proof fn lemma_shared_dirs(
    cwd: Seq<char>,
    instance_dir: Seq<char>,
    home: Seq<char>,
    outside: Option<Seq<char>>,
)
    ensures
        shared_dirs(cwd, instance_dir, home, outside, true).len() == 0,
        ({
            let dirs = shared_dirs(cwd, instance_dir, home, outside, false);
            &&& dirs.len() == (if outside is Some {
                2int
            } else {
                1int
            })
            &&& dirs[0].tag == "home"@ && dirs[0].root == home
            &&& paths::lies_in(cwd, home) ==> dirs[0].writable.len() == 1 && ((
            dirs[0].writable[0] == "."@ && paths::components(cwd) == paths::components(home))
                || paths::components(home) + paths::components(dirs[0].writable[0])
                == paths::components(cwd))
            &&& !paths::lies_in(cwd, home) ==> dirs[0].writable.len() == 0
            &&& paths::components(dirs[0].unshare_dir) == paths::components(instance_dir) + seq![
                "host-share-state"@,
                "home"@,
            ]
            &&& outside matches Some(dir) ==> {
                &&& dirs[1].tag == "cwd"@ && dirs[1].root == dir
                &&& dirs[1].writable == seq!["."@]
                &&& paths::components(dirs[1].unshare_dir) == paths::components(instance_dir)
                    + seq!["host-share-state"@, "cwd"@]
            }
        }),
{
    assert("host-share-state"@.len() == 16 && !"host-share-state"@.contains('/')) by {
        reveal_strlit("host-share-state");
    }
    assert("home"@.len() == 4 && !"home"@.contains('/')) by {
        reveal_strlit("home");
    }
    assert("cwd"@.len() == 3 && !"cwd"@.contains('/')) by {
        reveal_strlit("cwd");
    }
    paths::lemma_relative(cwd, home);
    shares::lemma_home_writes(cwd, home);
    let state = paths::joined(instance_dir, "host-share-state"@);
    paths::lemma_name_in_directory(instance_dir, "host-share-state"@);
    paths::lemma_name_in_directory(state, "home"@);
    paths::lemma_name_in_directory(state, "cwd"@);
    let parts = paths::components(instance_dir);
    assert(parts.push("host-share-state"@).push("home"@) =~= parts + seq![
        "host-share-state"@,
        "home"@,
    ]);
    assert(parts.push("host-share-state"@).push("cwd"@) =~= parts + seq![
        "host-share-state"@,
        "cwd"@,
    ]);
}

/// The kernel is told its console and its disk whatever the machine, and nested
/// virtualisation adds one word to that.
#[verifier::spinoff_prover]
#[verifier::rlimit(40)]
pub proof fn lemma_kernel_line(root_device: Seq<char>, arm: bool, nested_kvm: bool)
    ensures
        exists|rest: Seq<char>|
            kernel_line(root_device, arm, nested_kvm) == #[trigger] (
            "console=hvc0 reboot=k panic=1 root="@ + root_device + " rw rootfstype=ext4"@ + rest),
        kernel_line(root_device, arm, true) == kernel_line(root_device, arm, false)
            + " kvm.allow_unsafe_mappings=1"@,
        text::ends(kernel_line(root_device, arm, false), " rootflags=dax"@),
        text::holds(kernel_line(root_device, true, nested_kvm), " arm64.nopauth"@),
        kernel_line(root_device, false, false) == "console=hvc0 reboot=k panic=1 root="@
            + root_device + " rw rootfstype=ext4"@ + " rootflags=dax"@,
{
    let base = "console=hvc0 reboot=k panic=1 root="@ + root_device + " rw rootfstype=ext4"@;
    let none = Seq::<char>::empty();
    let a = if arm {
        " arm64.nopauth"@
    } else {
        none
    };
    let k = if nested_kvm {
        " kvm.allow_unsafe_mappings=1"@
    } else {
        none
    };
    let dax = " rootflags=dax"@;
    assert(kernel_line(root_device, arm, nested_kvm) =~= base + (a + dax + k));
    assert(kernel_line(root_device, arm, false) =~= (base + a) + none + dax);
    text::lemma_parts_occur(base + a, none, dax);
    assert(kernel_line(root_device, true, nested_kvm) =~= base + " arm64.nopauth"@ + (dax + k));
    text::lemma_parts_occur(base, " arm64.nopauth"@, dax + k);
}

/// The guest's first process is told the host's time, its disk, its network and its
/// shares, each under a name of its own.
pub proof fn lemma_init_vars(
    unix_secs: nat,
    root_device: Seq<char>,
    net_ip: Seq<char>,
    net_gateway: Seq<char>,
    home: Seq<char>,
    cwd: Seq<char>,
    mounts: Seq<char>,
)
    ensures
        ({
            let env = init_vars(unix_secs, root_device, net_ip, net_gateway, home, cwd, mounts);
            &&& env.len() == 9
            &&& env.contains("container=lnx"@)
            &&& env.contains("LNX_HOST_UNIX_SECS="@ + text::dec(unix_secs))
            &&& env.contains("LNX_ROOT_DEVICE="@ + root_device)
            &&& env.contains("LNX_NET_IP="@ + net_ip)
            &&& env.contains("LNX_NET_GATEWAY="@ + net_gateway)
            &&& env.contains("LNX_VIRTIOFS_HOME="@ + home)
            &&& env.contains("LNX_VIRTIOFS_CWD="@ + cwd)
            &&& env.contains("LNX_VHOST_USER_FS="@ + mounts)
            &&& env.contains(
                "PATH=/usr/local/sbin:/usr/local/bin:/usr/sbin:/usr/bin:/sbin:/bin"@,
            )
        }),
{
    let env = init_vars(unix_secs, root_device, net_ip, net_gateway, home, cwd, mounts);
    assert(env[0] == "PATH=/usr/local/sbin:/usr/local/bin:/usr/sbin:/usr/bin:/sbin:/bin"@);
    assert(env[1] == "container=lnx"@);
    assert(env[2] == "LNX_HOST_UNIX_SECS="@ + text::dec(unix_secs));
    assert(env[3] == "LNX_ROOT_DEVICE="@ + root_device);
    assert(env[4] == "LNX_NET_IP="@ + net_ip);
    assert(env[5] == "LNX_NET_GATEWAY="@ + net_gateway);
    assert(env[6] == "LNX_VIRTIOFS_HOME="@ + home);
    assert(env[7] == "LNX_VIRTIOFS_CWD="@ + cwd);
    assert(env[8] == "LNX_VHOST_USER_FS="@ + mounts);
}

/// A guest is told of no share where there is none, else of the home, and of the working
/// directory exactly where that is a share of its own.
pub proof fn lemma_told_shares(layout: ShareLayout)
    ensures
        layout.no_host_shares ==> told_home(layout).len() == 0 && told_cwd(layout).len() == 0,
        !layout.no_host_shares ==> told_home(layout) == layout.host_home@,
        !layout.no_host_shares && layout.outside_home_cwd is None ==> told_cwd(layout).len() == 0,
        !layout.no_host_shares ==> (layout.outside_home_cwd matches Some(dir) ==> told_cwd(layout)
            == dir@),
{
}

/// A VM's state goes where the user asked, and to the published snapshot where the user
/// did not.
pub proof fn lemma_output(config: RunConfig)
    ensures
        config.snapshot_output matches Some(path) ==> output_of(config) == path@,
        config.snapshot_output is None ==> paths::components(output_of(config))
            == paths::components(config.layout.snapshot_dir@).push("latest"@),
{
    lemma_latest_in(config.layout.snapshot_dir@);
}

/// The start of a VM is traced with its instance, its size and how it starts, and with its
/// seed exactly where it has one.
pub proof fn lemma_traced_start(config: RunConfig)
    ensures
        ({
            let fields = vm_start_fields(config);
            &&& fields.contains(trace::text_field("instance"@, config.layout.instance@))
            &&& fields.contains(trace::integer_field("cpus"@, config.cpus as int))
            &&& fields.contains(trace::integer_field("memory_mib"@, config.memory_mib as int))
            &&& fields.contains(trace::bool_field("nested_kvm"@, config.nested_kvm))
            &&& fields.contains(trace::bool_field("no_host_shares"@, config.no_host_shares))
            &&& fields.contains(
                trace::bool_field("restore_snapshot"@, config.restore_snapshot is Some),
            )
            &&& fields.len() == (if config.deterministic is Some {
                9int
            } else {
                7int
            })
            &&& config.deterministic matches Some(d) ==> fields.contains(
                trace::text_field("seed"@, d.seed@),
            )
        }),
{
    let fields = vm_start_fields(config);
    assert(fields[0] == trace::text_field("instance"@, config.layout.instance@));
    assert(fields[1] == trace::integer_field("cpus"@, config.cpus as int));
    assert(fields[2] == trace::integer_field("memory_mib"@, config.memory_mib as int));
    assert(fields[3] == trace::bool_field("nested_kvm"@, config.nested_kvm));
    assert(fields[4] == trace::bool_field("no_host_shares"@, config.no_host_shares));
    assert(fields[5] == trace::bool_field("restore_snapshot"@, config.restore_snapshot is Some));
    if let Some(d) = config.deterministic {
        assert(fields[7] == trace::text_field("seed"@, d.seed@));
    }
}

/// The shares that are asked for are those of the config: its own home, its own choice
/// whether there are any, and its working directory beside the home exactly where no way
/// leads from the home to it.
pub proof fn lemma_requested_shares(s: StartShares, config: RunConfig, home: Seq<char>)
    requires
        are_requested(s, config, home),
    ensures
        !s.from_snapshot,
        s.layout.host_home@ == home,
        s.layout.no_host_shares == config.no_host_shares,
        s.layout.outside_home_cwd is None <==> exists|rest: Seq<Seq<char>>|
            paths::components(config.cwd@) == #[trigger] (paths::components(home) + rest),
        s.layout.outside_home_cwd matches Some(dir) ==> dir@ == config.cwd@,
        s.metadata.shares.no_host_shares == config.no_host_shares,
        !config.no_host_shares ==> text::opt_string(s.metadata.shares.host_home) == Some(home),
{
    paths::lemma_relative(config.cwd@, home);
}

/// The shares of a snapshot are those of its record, whatever the config asks for.
pub proof fn lemma_recorded_shares(s: StartShares, m: LaunchMetadata)
    requires
        are_recorded(s, m),
    ensures
        s.from_snapshot,
        s.metadata == m,
        s.layout.no_host_shares == m.shares.no_host_shares,
        m.shares.host_home matches Some(home) ==> s.layout.host_home@ == home@,
        m.shares.host_home is None ==> s.layout.host_home@.len() == 0,
        text::opt_string(s.layout.outside_home_cwd) == text::opt_string(m.shares.outside_home_cwd),
{
}

/// What is looked at of a shared directory: all that it says.
pub proof fn lemma_view_of_a_share(d: SharedDir, dirs: Seq<SharedDir>)
    ensures
        d@.tag == d.tag@,
        d@.root == d.root@,
        d@.writable == text::views(d.writable@),
        d@.unshare_dir == d.unshare_dir@,
        dir_views(dirs).len() == dirs.len(),
        forall|i: int| 0 <= i < dirs.len() ==> #[trigger] dir_views(dirs)[i] == dirs[i]@,
{
}

} // verus!
