//! How a VM is run: what the user asked for, and the command line that starts its owner.
use vstd::prelude::*;

use crate::deterministic::DeterministicConfig;
use crate::forwards;
use crate::forwards::PortForward;
use crate::paths;
use crate::text;

verus! {

/// What the user asked for.
#[derive(Clone, Debug, PartialEq, Eq)]
pub struct RunConfig {
    pub layout: paths::Layout,
    pub command: Vec<String>,
    pub cwd: String,
    pub cpus: u8,
    pub memory_mib: u32,
    pub nested_kvm: bool,
    pub restore_snapshot: Option<String>,
    /// Restore the published snapshot if there is one when the VM starts.
    pub restore_latest_if_available: bool,
    pub forwards: Vec<PortForward>,
    pub snapshot_output: Option<String>,
    pub run_as_root: bool,
    pub no_host_shares: bool,
    pub vhost_user_fs: Vec<VhostUserFsMount>,
    pub reuse_owner: bool,
    pub deterministic: Option<DeterministicConfig>,
    pub trace_events: bool,
}

/// A file system that another process serves to the guest.
#[derive(Clone, Debug, PartialEq, Eq)]
pub struct VhostUserFsMount {
    pub tag: String,
    pub mountpoint: String,
    pub socket: String,
    pub read_only: bool,
}

/// Why a configuration cannot be run.
#[derive(Clone, Copy, PartialEq, Eq, Structural, Debug)]
pub enum ConfigError {
    TraceWithoutDeterminism,
    WritableVhostUserFs,
}

impl ConfigError {
    /// The message shown to the user.
    pub fn message(&self) -> (m: &'static str)
        ensures
            m@ == (match *self {
                ConfigError::TraceWithoutDeterminism => "trace events require deterministic mode"@,
                ConfigError::WritableVhostUserFs => "vhost-user fs mounts are read-only only"@,
            }),
    {
        match self {
            ConfigError::TraceWithoutDeterminism => "trace events require deterministic mode",
            ConfigError::WritableVhostUserFs => "vhost-user fs mounts are read-only only",
        }
    }
}

/// Checks that the owner of a VM can trace as it is asked to.
pub fn validate_trace(config: &RunConfig) -> (r: Result<(), ConfigError>)
    ensures
        r == (if config.trace_events && config.deterministic is None {
            Err(ConfigError::TraceWithoutDeterminism)
        } else {
            Ok(())
        }),
{
    if config.trace_events && config.deterministic.is_none() {
        Err(ConfigError::TraceWithoutDeterminism)
    } else {
        Ok(())
    }
}

/// Whether every mount is read-only.
pub open spec fn all_read_only(mounts: Seq<VhostUserFsMount>) -> bool {
    forall|i: int| 0 <= i < mounts.len() ==> (#[trigger] mounts[i]).read_only
}

/// Checks that a configuration can be run: tracing needs determinism, and the file
/// systems that other processes serve are read-only.
pub fn validate_config(config: &RunConfig) -> (r: Result<(), ConfigError>)
    ensures
        r == (if config.trace_events && config.deterministic is None {
            Err(ConfigError::TraceWithoutDeterminism)
        } else if !all_read_only(config.vhost_user_fs@) {
            Err(ConfigError::WritableVhostUserFs)
        } else {
            Ok(())
        }),
{
    match validate_trace(config) {
        Err(e) => return Err(e),
        Ok(()) => {},
    }
    let mut i: usize = 0;
    while i < config.vhost_user_fs.len()
        invariant
            i <= config.vhost_user_fs@.len(),
            !(config.trace_events && config.deterministic is None),
            forall|k: int| 0 <= k < i ==> (#[trigger] config.vhost_user_fs@[k]).read_only,
        decreases config.vhost_user_fs@.len() - i,
    {
        if !config.vhost_user_fs[i].read_only {
            assert(!config.vhost_user_fs@[i as int].read_only);
            return Err(ConfigError::WritableVhostUserFs);
        }
        i = i + 1;
    }
    Ok(())
}

// ---------------------------------------------------------------------------
// The owner's command line
// ---------------------------------------------------------------------------

/// The text of a mount, as the command line takes it.
pub open spec fn mount_arg(mount: VhostUserFsMount) -> Seq<char> {
    let base = "tag="@ + mount.tag@ + ",mount="@ + mount.mountpoint@ + ",socket="@ + mount.socket@;
    if mount.read_only {
        base + ",ro"@
    } else {
        base
    }
}

/// Writes a mount as the command line takes it.
pub fn vhost_user_fs_arg(mount: &VhostUserFsMount) -> (s: String)
    ensures
        s@ == mount_arg(*mount),
{
    let mut s: String = "tag=".to_owned();
    s.append(mount.tag.as_str());
    s.append(",mount=");
    s.append(mount.mountpoint.as_str());
    s.append(",socket=");
    s.append(mount.socket.as_str());
    if mount.read_only {
        s.append(",ro");
    }
    s
}

/// The text of a forward.
pub open spec fn forward_text(forward: PortForward) -> Seq<char> {
    forwards::spec_text(
        forward.listen_host@,
        forward.listen_port,
        forward.guest_host@,
        forward.guest_port,
    )
}

/// The arguments for forwards.
pub open spec fn forward_args(forwards: Seq<PortForward>) -> Seq<Seq<char>>
    decreases forwards.len(),
{
    if forwards.len() == 0 {
        Seq::empty()
    } else {
        forward_args(forwards.drop_last()) + seq!["--forward"@, forward_text(forwards.last())]
    }
}

/// Every forward is among the arguments, in order: an option for each, with its text behind
/// it.
pub proof fn lemma_forward_args(forwards: Seq<PortForward>)
    ensures
        forward_args(forwards).len() == 2 * forwards.len(),
        forall|k: int|
            #![trigger forwards[k]]
            0 <= k < forwards.len() ==> forward_args(forwards).subrange(2 * k, 2 * k + 2) == seq![
                "--forward"@,
                forwards[k].listen_host@ + ":"@ + text::dec(forwards[k].listen_port as nat) + ":"@
                    + forwards[k].guest_host@ + ":"@ + text::dec(forwards[k].guest_port as nat),
            ],
    decreases forwards.len(),
{
    if forwards.len() > 0 {
        let front = forwards.drop_last();
        let all = forward_args(forwards);
        lemma_forward_args(front);
        assert forall|k: int|
            #![trigger forwards[k]]
            0 <= k < forwards.len() implies all.subrange(2 * k, 2 * k + 2) == seq![
                "--forward"@,
                forwards[k].listen_host@ + ":"@ + text::dec(forwards[k].listen_port as nat) + ":"@
                    + forwards[k].guest_host@ + ":"@ + text::dec(forwards[k].guest_port as nat),
            ] by {
            if k < front.len() {
                assert(front[k] == forwards[k]);
                assert(all.subrange(2 * k, 2 * k + 2) =~= forward_args(front).subrange(2 * k, 2 * k + 2));
            } else {
                assert(all.subrange(2 * k, 2 * k + 2) =~= seq![
                    "--forward"@,
                    forwards[k].listen_host@ + ":"@ + text::dec(forwards[k].listen_port as nat) + ":"@
                        + forwards[k].guest_host@ + ":"@ + text::dec(forwards[k].guest_port as nat),
                ]);
            }
        }
    }
}

/// Every mount is among the arguments, in order: an option for each, with its text behind
/// it.
pub proof fn lemma_mount_args(mounts: Seq<VhostUserFsMount>)
    ensures
        mount_args(mounts).len() == 2 * mounts.len(),
        forall|k: int|
            #![trigger mounts[k]]
            0 <= k < mounts.len() ==> mount_args(mounts).subrange(2 * k, 2 * k + 2) == seq![
                "--vhost-user-fs"@,
                "tag="@ + mounts[k].tag@ + ",mount="@ + mounts[k].mountpoint@ + ",socket="@ + mounts[k].socket@ + (
                if mounts[k].read_only {
                    ",ro"@
                } else {
                    Seq::empty()
                }),
            ],
    decreases mounts.len(),
{
    if mounts.len() > 0 {
        let front = mounts.drop_last();
        let all = mount_args(mounts);
        lemma_mount_args(front);
        assert forall|k: int|
            #![trigger mounts[k]]
            0 <= k < mounts.len() implies all.subrange(2 * k, 2 * k + 2) == seq![
                "--vhost-user-fs"@,
                "tag="@ + mounts[k].tag@ + ",mount="@ + mounts[k].mountpoint@ + ",socket="@ + mounts[k].socket@ + (
                if mounts[k].read_only {
                    ",ro"@
                } else {
                    Seq::empty()
                }),
            ] by {
            if k < front.len() {
                assert(front[k] == mounts[k]);
                assert(all.subrange(2 * k, 2 * k + 2) =~= mount_args(front).subrange(2 * k, 2 * k + 2));
            } else {
                let base = "tag="@ + mounts[k].tag@ + ",mount="@ + mounts[k].mountpoint@
                    + ",socket="@ + mounts[k].socket@;
                assert(base + Seq::<char>::empty() =~= base);
                assert(all.subrange(2 * k, 2 * k + 2) =~= seq![
                    "--vhost-user-fs"@,
                    "tag="@ + mounts[k].tag@ + ",mount="@ + mounts[k].mountpoint@ + ",socket="@ + mounts[k].socket@ + (
                    if mounts[k].read_only {
                        ",ro"@
                    } else {
                        Seq::empty()
                    }),
                ]);
            }
        }
    }
}

/// The arguments for mounts.
pub open spec fn mount_args(mounts: Seq<VhostUserFsMount>) -> Seq<Seq<char>>
    decreases mounts.len(),
{
    if mounts.len() == 0 {
        Seq::empty()
    } else {
        mount_args(mounts.drop_last()) + seq!["--vhost-user-fs"@, mount_arg(mounts.last())]
    }
}

/// One argument where a condition holds.
pub open spec fn flag(on: bool, name: Seq<char>) -> Seq<Seq<char>> {
    if on {
        seq![name]
    } else {
        Seq::empty()
    }
}

/// An option and its value, where there is one.
pub open spec fn option_args(name: Seq<char>, value: Option<Seq<char>>) -> Seq<Seq<char>> {
    match value {
        Some(v) => seq![name, v],
        None => Seq::empty(),
    }
}

/// The seed of a deterministic run.
pub open spec fn seed_of(d: Option<DeterministicConfig>) -> Option<Seq<char>> {
    match d {
        Some(c) => Some(c.seed@),
        None => None,
    }
}

/// The command line that starts the owner of a VM.
pub open spec fn owner_args(config: RunConfig) -> Seq<Seq<char>> {
    seq![
        "--instance"@,
        config.layout.instance@,
        "--kernel"@,
        config.layout.kernel@,
        "--rootfs"@,
        config.layout.rootfs@,
        "--cpus"@,
        text::dec(config.cpus as nat),
        "--memory-mib"@,
        text::dec(config.memory_mib as nat),
    ] + flag(config.nested_kvm, "--nested-kvm"@) + flag(config.no_host_shares, "--no-host-shares"@)
        + option_args("--deterministic"@, seed_of(config.deterministic)) + flag(
        config.trace_events,
        "--trace-events"@,
    ) + forward_args(config.forwards@) + mount_args(config.vhost_user_fs@) + seq![
        "_vm-owner"@,
        "--cwd"@,
        config.cwd@,
    ] + option_args("--restore"@, text::opt_string(config.restore_snapshot))
}

/// Adds an argument.
pub fn push_arg(args: &mut Vec<String>, arg: &str)
    ensures
        text::views(final(args)@) == text::views(old(args)@).push(arg@),
{
    let ghost before = text::views(args@);
    args.push(arg.to_owned());
    assert(text::views(args@) =~= before.push(arg@));
}

/// Adds two arguments.
pub fn push_pair(args: &mut Vec<String>, name: &str, value: &str)
    ensures
        text::views(final(args)@) == text::views(old(args)@) + seq![name@, value@],
{
    let ghost before = text::views(args@);
    push_arg(args, name);
    push_arg(args, value);
    assert(text::views(args@) =~= before + seq![name@, value@]);
}

fn push_flag(args: &mut Vec<String>, on: bool, name: &str)
    ensures
        text::views(final(args)@) == text::views(old(args)@) + flag(on, name@),
{
    let ghost before = text::views(args@);
    if on {
        push_arg(args, name);
    }
    assert(text::views(args@) =~= before + flag(on, name@));
}

fn push_option(args: &mut Vec<String>, name: &str, value: Option<&str>)
    ensures
        text::views(final(args)@) == text::views(old(args)@) + option_args(
            name@,
            match value {
                Some(v) => Some(v@),
                None => None,
            },
        ),
{
    let ghost before = text::views(args@);
    match value {
        Some(v) => push_pair(args, name, v),
        None => {
            assert(before + Seq::<Seq<char>>::empty() =~= before);
        },
    }
}

fn push_forwards(args: &mut Vec<String>, forwards: &Vec<PortForward>)
    ensures
        text::views(final(args)@) == text::views(old(args)@) + forward_args(forwards@),
{
    let ghost before = text::views(args@);
    let mut i: usize = 0;
    assert(forwards@.take(0) =~= Seq::<PortForward>::empty());
    assert(before + Seq::<Seq<char>>::empty() =~= before);
    while i < forwards.len()
        invariant
            i <= forwards@.len(),
            text::views(args@) == before + forward_args(forwards@.take(i as int)),
        decreases forwards@.len() - i,
    {
        let ghost next = forwards@.take(i + 1);
        assert(next.drop_last() =~= forwards@.take(i as int));
        assert(next.last() == forwards@[i as int]);
        let ghost so_far = text::views(args@);
        push_pair(args, "--forward", forwards::forward_spec(&forwards[i]).as_str());
        assert(text::views(args@) =~= before + forward_args(next));
        i = i + 1;
    }
    assert(forwards@.take(i as int) =~= forwards@);
}

fn push_mounts(args: &mut Vec<String>, mounts: &Vec<VhostUserFsMount>)
    ensures
        text::views(final(args)@) == text::views(old(args)@) + mount_args(mounts@),
{
    let ghost before = text::views(args@);
    let mut i: usize = 0;
    assert(mounts@.take(0) =~= Seq::<VhostUserFsMount>::empty());
    assert(before + Seq::<Seq<char>>::empty() =~= before);
    while i < mounts.len()
        invariant
            i <= mounts@.len(),
            text::views(args@) == before + mount_args(mounts@.take(i as int)),
        decreases mounts@.len() - i,
    {
        let ghost next = mounts@.take(i + 1);
        assert(next.drop_last() =~= mounts@.take(i as int));
        assert(next.last() == mounts@[i as int]);
        push_pair(args, "--vhost-user-fs", vhost_user_fs_arg(&mounts[i]).as_str());
        assert(text::views(args@) =~= before + mount_args(next));
        i = i + 1;
    }
    assert(mounts@.take(i as int) =~= mounts@);
}

/// Where the arguments for forwards begin in the command line of an owner.
pub open spec fn forwards_at(config: RunConfig) -> int {
    10 + (if config.nested_kvm {
        1int
    } else {
        0
    }) + (if config.no_host_shares {
        1int
    } else {
        0
    }) + (if config.deterministic is Some {
        2int
    } else {
        0
    }) + (if config.trace_events {
        1int
    } else {
        0
    })
}

/// What the command line of an owner holds, argument by argument: the instance and its
/// files, its size, the flags that are set, the seed, every forward and every mount in
/// order, and what the owner is to run.
#[verifier::spinoff_prover]
#[verifier::rlimit(60)]
pub proof fn lemma_owner_args(config: RunConfig)
    ensures
        ({
            let args = owner_args(config);
            let at = forwards_at(config);
            let mounts = at + 2 * config.forwards@.len();
            let end = mounts + 2 * config.vhost_user_fs@.len();
            &&& args.len() == end + 3 + (if config.restore_snapshot is Some {
                2int
            } else {
                0
            })
            &&& args[0] == "--instance"@ && args[1] == config.layout.instance@
            &&& args[2] == "--kernel"@ && args[3] == config.layout.kernel@
            &&& args[4] == "--rootfs"@ && args[5] == config.layout.rootfs@
            &&& args[6] == "--cpus"@ && args[7] == text::dec(config.cpus as nat)
            &&& args[8] == "--memory-mib"@ && args[9] == text::dec(config.memory_mib as nat)
            &&& config.nested_kvm ==> args[10] == "--nested-kvm"@
            &&& config.no_host_shares ==> args[if config.nested_kvm {
                11int
            } else {
                10
            }] == "--no-host-shares"@
            &&& config.trace_events ==> args[at - 1] == "--trace-events"@
            &&& config.deterministic matches Some(d) ==> {
                let seed = at - (if config.trace_events {
                    1int
                } else {
                    0
                });
                args[seed - 2] == "--deterministic"@ && args[seed - 1] == d.seed@
            }
            &&& forall|k: int|
                #![trigger config.forwards@[k]]
                0 <= k < config.forwards@.len() ==> args.subrange(at + 2 * k, at + 2 * k + 2) == seq![
                    "--forward"@,
                    config.forwards@[k].listen_host@ + ":"@ + text::dec(config.forwards@[k].listen_port as nat) + ":"@
                        + config.forwards@[k].guest_host@ + ":"@ + text::dec(config.forwards@[k].guest_port as nat),
                ]
            &&& forall|k: int|
                #![trigger config.vhost_user_fs@[k]]
                0 <= k < config.vhost_user_fs@.len() ==> args.subrange(
                    mounts + 2 * k,
                    mounts + 2 * k + 2,
                ) == seq![
                    "--vhost-user-fs"@,
                    "tag="@ + config.vhost_user_fs@[k].tag@ + ",mount="@ + config.vhost_user_fs@[k].mountpoint@ + ",socket="@ + config.vhost_user_fs@[k].socket@ + (
                    if config.vhost_user_fs@[k].read_only {
                        ",ro"@
                    } else {
                        Seq::empty()
                    }),
                ]
            &&& args[end] == "_vm-owner"@ && args[end + 1] == "--cwd"@ && args[end + 2]
                == config.cwd@
            &&& config.restore_snapshot matches Some(s) ==> args[end + 3] == "--restore"@
                && args[end + 4] == s@
        }),
{
    let args = owner_args(config);
    let at = forwards_at(config);
    lemma_forward_args(config.forwards@);
    lemma_mount_args(config.vhost_user_fs@);
    let f = forward_args(config.forwards@);
    let m = mount_args(config.vhost_user_fs@);
    let head = seq![
        "--instance"@,
        config.layout.instance@,
        "--kernel"@,
        config.layout.kernel@,
        "--rootfs"@,
        config.layout.rootfs@,
        "--cpus"@,
        text::dec(config.cpus as nat),
        "--memory-mib"@,
        text::dec(config.memory_mib as nat),
    ];
    let nested = head + flag(config.nested_kvm, "--nested-kvm"@);
    let shared = nested + flag(config.no_host_shares, "--no-host-shares"@);
    let seeded = shared + option_args("--deterministic"@, seed_of(config.deterministic));
    let traced = seeded + flag(config.trace_events, "--trace-events"@);
    let listed = traced + f + m;
    let tail = seq!["_vm-owner"@, "--cwd"@, config.cwd@];
    let restore = option_args("--restore"@, text::opt_string(config.restore_snapshot));
    assert(args == listed + tail + restore);
    assert(traced.len() == at);
    assert forall|i: int| 0 <= i < at implies #[trigger] args[i] == traced[i] by {
        assert(listed[i] == traced[i]);
    }
    assert(args.subrange(at, at + f.len()) =~= f);
    assert(args.subrange(at + f.len(), at + f.len() + m.len()) =~= m);
    let end = listed.len() as int;
    assert(args[end] == tail[0] && args[end + 1] == tail[1] && args[end + 2] == tail[2]);
    assert forall|i: int| 0 <= i < 10 implies #[trigger] args[i] == head[i] by {
        assert(traced[i] == head[i]);
    }
    if config.nested_kvm {
        assert(traced[10] == nested[10]);
    }
    if config.no_host_shares {
        assert(traced[nested.len() as int] == shared[nested.len() as int]);
    }
    if config.deterministic is Some {
        assert(traced[shared.len() as int] == seeded[shared.len() as int]);
        assert(traced[shared.len() as int + 1] == seeded[shared.len() as int + 1]);
    }
    if config.restore_snapshot is Some {
        assert(args[end + 3] == restore[0] && args[end + 4] == restore[1]);
    }
    assert forall|k: int|
        #![trigger config.forwards@[k]]
        0 <= k < config.forwards@.len() implies args.subrange(at + 2 * k, at + 2 * k + 2) == seq![
            "--forward"@,
            config.forwards@[k].listen_host@ + ":"@ + text::dec(config.forwards@[k].listen_port as nat) + ":"@
                + config.forwards@[k].guest_host@ + ":"@ + text::dec(config.forwards@[k].guest_port as nat),
        ] by {
        assert(args.subrange(at + 2 * k, at + 2 * k + 2) =~= f.subrange(2 * k, 2 * k + 2)) by {
            assert(args.subrange(at, at + f.len())[2 * k] == f[2 * k]);
            assert(args.subrange(at, at + f.len())[2 * k + 1] == f[2 * k + 1]);
        }
    }
    let mounts = at + f.len();
    assert forall|k: int|
        #![trigger config.vhost_user_fs@[k]]
        0 <= k < config.vhost_user_fs@.len() implies args.subrange(
            mounts + 2 * k,
            mounts + 2 * k + 2,
        ) == seq![
            "--vhost-user-fs"@,
            "tag="@ + config.vhost_user_fs@[k].tag@ + ",mount="@ + config.vhost_user_fs@[k].mountpoint@ + ",socket="@ + config.vhost_user_fs@[k].socket@ + (
            if config.vhost_user_fs@[k].read_only {
                ",ro"@
            } else {
                Seq::empty()
            }),
        ] by {
        assert(args.subrange(mounts + 2 * k, mounts + 2 * k + 2) =~= m.subrange(
            2 * k,
            2 * k + 2,
        )) by {
            assert(args.subrange(mounts, mounts + m.len())[2 * k] == m[2 * k]);
            assert(args.subrange(mounts, mounts + m.len())[2 * k + 1] == m[2 * k + 1]);
        }
    }
}

/// The command line that starts the owner of a VM.
pub fn owner_restart_args(config: &RunConfig) -> (args: Vec<String>)
    ensures
        text::views(args@) == owner_args(*config),
        forall|k: int|
            #![trigger config.forwards@[k]]
            0 <= k < config.forwards@.len() ==> text::views(args@).subrange(
                forwards_at(*config) + 2 * k,
                forwards_at(*config) + 2 * k + 2,
            ) == seq![
                "--forward"@,
                config.forwards@[k].listen_host@ + ":"@ + text::dec(config.forwards@[k].listen_port as nat) + ":"@
                    + config.forwards@[k].guest_host@ + ":"@ + text::dec(config.forwards@[k].guest_port as nat),
            ],
{
    proof {
        lemma_owner_args(*config);
    }
    let mut args: Vec<String> = Vec::new();
    assert(text::views(args@) =~= Seq::<Seq<char>>::empty());
    push_pair(&mut args, "--instance", config.layout.instance.as_str());
    push_pair(&mut args, "--kernel", config.layout.kernel.as_str());
    push_pair(&mut args, "--rootfs", config.layout.rootfs.as_str());
    push_pair(&mut args, "--cpus", text::decimal(config.cpus as u128).as_str());
    push_pair(&mut args, "--memory-mib", text::decimal(config.memory_mib as u128).as_str());
    let ghost head = seq![
        "--instance"@,
        config.layout.instance@,
        "--kernel"@,
        config.layout.kernel@,
        "--rootfs"@,
        config.layout.rootfs@,
        "--cpus"@,
        text::dec(config.cpus as nat),
        "--memory-mib"@,
        text::dec(config.memory_mib as nat),
    ];
    assert(text::views(args@) =~= head);
    push_flag(&mut args, config.nested_kvm, "--nested-kvm");
    push_flag(&mut args, config.no_host_shares, "--no-host-shares");
    let seed: Option<&str> = match &config.deterministic {
        Some(d) => Some(d.seed.as_str()),
        None => None,
    };
    push_option(&mut args, "--deterministic", seed);
    push_flag(&mut args, config.trace_events, "--trace-events");
    push_forwards(&mut args, &config.forwards);
    push_mounts(&mut args, &config.vhost_user_fs);
    let ghost options = text::views(args@);
    push_arg(&mut args, "_vm-owner");
    push_pair(&mut args, "--cwd", config.cwd.as_str());
    assert(text::views(args@) =~= options + seq!["_vm-owner"@, "--cwd"@, config.cwd@]);
    let restore: Option<&str> = match &config.restore_snapshot {
        Some(s) => Some(s.as_str()),
        None => None,
    };
    push_option(&mut args, "--restore", restore);
    args
}

/// Takes another look at which snapshot to restore, once the VM can be started: the
/// published one, if it is there, where the user asked for it. Another choice stays.
pub fn refresh_default_restore_snapshot(config: &mut RunConfig, latest_is_there: bool)
    ensures
        !old(config).restore_latest_if_available ==> *final(config) == *old(config),
        old(config).restore_latest_if_available ==> text::opt_string(final(config).restore_snapshot) == (
        if latest_is_there {
            Some(paths::joined(old(config).layout.snapshot_dir@, "latest"@))
        } else {
            None
        }),
        *final(config) == (RunConfig {
            restore_snapshot: final(config).restore_snapshot,
            ..*old(config)
        }),
{
    if !config.restore_latest_if_available {
        return ;
    }
    if latest_is_there {
        config.restore_snapshot = Some(paths::join(config.layout.snapshot_dir.as_str(), "latest"));
    } else {
        config.restore_snapshot = None;
    }
}

} // verus!
