//! Instances on a server: what state they are in, how they are listed, started and
//! stopped.
use vstd::prelude::*;

use crate::config;
use crate::outcome;
use crate::outcome::FinalSnapshotOutcome;
use crate::outcome::OutcomeError;
use crate::outcome::OutcomeReadError;
use crate::outcome::StoppedOwner;
use crate::paths;
use crate::publish;
use crate::text;

verus! {

/// How a server runs its instances.
#[derive(Debug, PartialEq, Eq)]
pub struct ServeConfig {
    pub listen: String,
    pub cpus: u8,
    pub memory_mib: u32,
    pub nested_kvm: bool,
    pub no_host_shares: bool,
}

/// What all requests of a server share.
#[derive(Clone, Copy, PartialEq, Eq, Structural, Debug)]
pub struct AppState {
    pub cpus: u8,
    pub memory_mib: u32,
    pub nested_kvm: bool,
    pub no_host_shares: bool,
}

impl AppState {
    /// What all requests of a server with this configuration share.
    pub fn new(config: &ServeConfig) -> (s: AppState)
        ensures
            s.cpus == config.cpus,
            s.memory_mib == config.memory_mib,
            s.nested_kvm == config.nested_kvm,
            s.no_host_shares == config.no_host_shares,
    {
        AppState {
            cpus: config.cpus,
            memory_mib: config.memory_mib,
            nested_kvm: config.nested_kvm,
            no_host_shares: config.no_host_shares,
        }
    }
}

// ---------------------------------------------------------------------------
// States
// ---------------------------------------------------------------------------

/// The state of an instance.
#[derive(Clone, Copy, PartialEq, Eq, Structural, Debug)]
pub enum InstanceState {
    Running,
    Starting,
    Stopped,
    Partial,
}

impl InstanceState {
    /// The name of the state.
    pub fn name(&self) -> (s: &'static str)
        ensures
            s@ == (match *self {
                InstanceState::Running => "running"@,
                InstanceState::Starting => "starting"@,
                InstanceState::Stopped => "stopped"@,
                InstanceState::Partial => "partial"@,
            }),
    {
        match self {
            InstanceState::Running => "running",
            InstanceState::Starting => "starting",
            InstanceState::Stopped => "stopped",
            InstanceState::Partial => "partial",
        }
    }
}

/// The state of an instance: it runs where its broker answers, it starts where an owner
/// lives, and else it is stopped, or has no disk.
pub fn instance_state(broker_answers: bool, owner_lives: bool, has_rootfs: bool) -> (s:
    InstanceState)
    ensures
        s == (if broker_answers {
            InstanceState::Running
        } else if owner_lives {
            InstanceState::Starting
        } else if has_rootfs {
            InstanceState::Stopped
        } else {
            InstanceState::Partial
        }),
        s is Running <==> broker_answers,
        s is Starting <==> !broker_answers && owner_lives,
        s is Stopped <==> !broker_answers && !owner_lives && has_rootfs,
        s is Partial <==> !broker_answers && !owner_lives && !has_rootfs,
{
    if broker_answers {
        InstanceState::Running
    } else if owner_lives {
        InstanceState::Starting
    } else if has_rootfs {
        InstanceState::Stopped
    } else {
        InstanceState::Partial
    }
}

/// The place of a state in a list.
pub open spec fn rank(s: InstanceState) -> int {
    match s {
        InstanceState::Running => 0,
        InstanceState::Starting => 1,
        InstanceState::Stopped => 2,
        InstanceState::Partial => 3,
    }
}

/// The place of a state in a list.
pub fn instance_state_rank(s: InstanceState) -> (r: u8)
    ensures
        r == rank(s),
{
    match s {
        InstanceState::Running => 0,
        InstanceState::Starting => 1,
        InstanceState::Stopped => 2,
        InstanceState::Partial => 3,
    }
}

// ---------------------------------------------------------------------------
// Lists
// ---------------------------------------------------------------------------

/// A character in lower case, where it is a letter of ASCII.
pub open spec fn lower_char(c: char) -> char {
    if 'A' <= c && c <= 'Z' {
        (c as u32 + 32) as char
    } else {
        c
    }
}

/// A text in lower case.
pub open spec fn lower(s: Seq<char>) -> Seq<char> {
    s.map_values(|c: char| lower_char(c))
}

/// A text in lower case.
pub fn to_lower(s: &str) -> (r: String)
    ensures
        r@ == lower(s@),
{
    let v: Vec<char> = text::chars(s);
    let mut r: String = String::new();
    let mut i: usize = 0;
    while i < v.len()
        invariant
            i <= v@.len(),
            v@ == s@,
            r@ == lower(s@.take(i as int)),
        decreases v@.len() - i,
    {
        let c: char = v[i];
        if 'A' <= c && c <= 'Z' {
            let n: u8 = (c as u32 + 32) as u8;
            let d: char = n as char;
            assert(d == lower_char(c));
            r.push(d);
        } else {
            r.push(c);
        }
        i = i + 1;
        assert(r@ =~= lower(s@.take(i as int)));
    }
    assert(s@.take(i as int) =~= s@);
    r
}

/// An entry of the list of instances.
#[derive(Debug, PartialEq, Eq)]
pub struct InstanceSummary {
    pub name: String,
    pub state: InstanceState,
    pub pids: Vec<i32>,
    pub cpus: u8,
    pub memory_mib: u32,
    pub image: Option<String>,
    pub rootfs_size_bytes: Option<u64>,
    pub rootfs_allocated_bytes: Option<u64>,
    pub checkpoints: usize,
    pub has_snapshot: bool,
}

/// How two entries stand in order: by state, then by name in lower case, then by name.
pub open spec fn summary_order(a: InstanceSummary, b: InstanceSummary) -> int {
    if rank(a.state) < rank(b.state) {
        -1
    } else if rank(a.state) > rank(b.state) {
        1
    } else if text::text_order(lower(a.name@), lower(b.name@)) != 0 {
        text::text_order(lower(a.name@), lower(b.name@))
    } else {
        text::text_order(a.name@, b.name@)
    }
}

fn order_of_summaries(a: &InstanceSummary, b: &InstanceSummary) -> (r: i8)
    ensures
        r == summary_order(*a, *b),
{
    let x: u8 = instance_state_rank(a.state);
    let y: u8 = instance_state_rank(b.state);
    if x < y {
        -1
    } else if x > y {
        1
    } else {
        let lowered: i8 = text::order_of_texts(
            to_lower(a.name.as_str()).as_str(),
            to_lower(b.name.as_str()).as_str(),
        );
        if lowered != 0 {
            lowered
        } else {
            text::order_of_texts(a.name.as_str(), b.name.as_str())
        }
    }
}

/// An entry put into a list, behind those that are not after it.
pub open spec fn listed(list: Seq<InstanceSummary>, s: InstanceSummary) -> Seq<InstanceSummary>
    decreases list.len(),
{
    if list.len() == 0 || summary_order(list.last(), s) <= 0 {
        list.push(s)
    } else {
        listed(list.drop_last(), s).push(list.last())
    }
}

fn place_in_list(list: &Vec<InstanceSummary>, s: &InstanceSummary) -> (i: usize)
    ensures
        i <= list@.len(),
        list@.insert(i as int, *s) == listed(list@, *s),
{
    let ghost all = list@;
    let mut i: usize = list.len();
    assert(all.take(i as int) =~= all);
    assert(all.skip(i as int) =~= Seq::<InstanceSummary>::empty());
    assert(listed(all, *s) + Seq::<InstanceSummary>::empty() =~= listed(all, *s));
    while i > 0 && order_of_summaries(&list[i - 1], s) > 0
        invariant
            i <= list@.len(),
            all == list@,
            listed(all, *s) == listed(all.take(i as int), *s) + all.skip(i as int),
        decreases i,
    {
        proof {
            let front = all.take(i as int);
            assert(front.last() == all[i - 1]);
            assert(front.drop_last() =~= all.take(i - 1));
            assert(listed(all.take(i - 1), *s).push(front.last()) + all.skip(i as int) =~= listed(
                all.take(i - 1),
                *s,
            ) + all.skip(i - 1));
        }
        i = i - 1;
    }
    proof {
        let front = all.take(i as int);
        if i > 0 {
            assert(front.last() == all[i - 1]);
        }
        assert(listed(front, *s) == front.push(*s));
        assert(all.insert(i as int, *s) =~= front.push(*s) + all.skip(i as int));
    }
    i
}

/// Adds an entry to the list of instances: running ones first, then by name.
pub fn list_instance(list: &mut Vec<InstanceSummary>, s: InstanceSummary)
    ensures
        final(list)@ == listed(old(list)@, s),
{
    let at: usize = place_in_list(list, &s);
    list.insert(at, s);
}

/// Whether a list is in order.
pub open spec fn is_listed(list: Seq<InstanceSummary>) -> bool {
    forall|i: int, j: int|
        0 <= i <= j < list.len() ==> summary_order(#[trigger] list[i], #[trigger] list[j]) <= 0
}

proof fn lemma_summary_order(a: InstanceSummary, b: InstanceSummary, c: InstanceSummary)
    ensures
        summary_order(a, a) == 0,
        summary_order(a, b) == -summary_order(b, a),
        summary_order(a, b) <= 0 && summary_order(b, c) <= 0 ==> summary_order(a, c) <= 0,
{
    let (x, y, z) = (lower(a.name@), lower(b.name@), lower(c.name@));
    text::lemma_text_order(x, y, z);
    text::lemma_text_order(y, z, x);
    text::lemma_text_order(x, z, y);
    text::lemma_text_order(a.name@, b.name@, c.name@);
}

/// A list stays in order when an entry is added, and keeps every entry.
pub proof fn lemma_list_stays_in_order(list: Seq<InstanceSummary>, s: InstanceSummary)
    requires
        is_listed(list),
    ensures
        is_listed(listed(list, s)),
        listed(list, s).len() == list.len() + 1,
        forall|i: int|
            0 <= i < list.len() + 1 ==> (#[trigger] listed(list, s)[i] == s || exists|k: int|
                0 <= k < list.len() && listed(list, s)[i] == #[trigger] list[k]),
    decreases list.len(),
{
    let r = listed(list, s);
    if list.len() == 0 || summary_order(list.last(), s) <= 0 {
        assert forall|i: int, j: int| 0 <= i <= j < r.len() implies summary_order(
            #[trigger] r[i],
            #[trigger] r[j],
        ) <= 0 by {
            lemma_summary_order(s, s, s);
            if j == list.len() && i < list.len() {
                lemma_summary_order(list[i], list.last(), s);
            }
        }
        assert forall|i: int| 0 <= i < list.len() implies r[i] == list[i] by {}
    } else {
        let front = list.drop_last();
        let last = list.last();
        lemma_list_stays_in_order(front, s);
        let g = listed(front, s);
        lemma_summary_order(last, s, s);
        assert forall|i: int| 0 <= i < g.len() implies summary_order(#[trigger] g[i], last)
            <= 0 by {
            if g[i] != s {
                let k = choose|k: int| 0 <= k < front.len() && g[i] == #[trigger] front[k];
                assert(front[k] == list[k]);
                assert(summary_order(list[k], list[list.len() - 1]) <= 0);
            }
        }
        assert forall|i: int, j: int| 0 <= i <= j < r.len() implies summary_order(
            #[trigger] r[i],
            #[trigger] r[j],
        ) <= 0 by {
            if j == g.len() {
                lemma_summary_order(last, last, last);
            } else {
                assert(r[i] == g[i] && r[j] == g[j]);
            }
        }
        assert forall|i: int| 0 <= i < list.len() + 1 implies (#[trigger] r[i] == s || exists|
            k: int,
        |
            0 <= k < list.len() && r[i] == #[trigger] list[k]) by {
            if i == g.len() {
                assert(r[i] == list[list.len() - 1]);
            } else if g[i] != s {
                let k = choose|k: int| 0 <= k < front.len() && g[i] == #[trigger] front[k];
                assert(list[k] == front[k]);
            }
        }
    }
}

// ---------------------------------------------------------------------------
// Processes
// ---------------------------------------------------------------------------

/// The numbers of processes that lines name, but for one.
pub open spec fn pids_in(lines: Seq<Seq<char>>, own: i32) -> Seq<int>
    decreases lines.len(),
{
    if lines.len() == 0 {
        Seq::empty()
    } else {
        let rest = pids_in(lines.drop_last(), own);
        match text::parsed_i32(text::trimmed(lines.last())) {
            Some(pid) => if pid == own {
                rest
            } else {
                rest.push(pid)
            },
            None => rest,
        }
    }
}

/// Numbers, as plain values.
pub open spec fn int_views(v: Seq<i32>) -> Seq<int> {
    Seq::new(v.len(), |i: int| v[i] as int)
}

/// The processes that a search for an instance found, but for the one that searched.
pub fn host_pids_for_instance(output: &str, own: i32) -> (r: Vec<i32>)
    ensures
        int_views(r@) == pids_in(text::lines_of(output@), own),
{
    let lines: Vec<String> = text::lines(output);
    let ghost all = text::lines_of(output@);
    let mut r: Vec<i32> = Vec::new();
    let mut i: usize = 0;
    assert(all.take(0) =~= Seq::<Seq<char>>::empty());
    assert(int_views(r@) =~= Seq::<int>::empty());
    while i < lines.len()
        invariant
            i <= lines@.len(),
            all == text::views(lines@),
            int_views(r@) == pids_in(all.take(i as int), own),
        decreases lines@.len() - i,
    {
        proof {
            assert(all.take(i + 1).drop_last() =~= all.take(i as int));
            assert(all.take(i + 1).last() == lines@[i as int]@);
        }
        if let Some(pid) = text::parse_i32(text::trim(lines[i].as_str())) {
            if pid != own {
                let ghost before = int_views(r@);
                r.push(pid);
                assert(int_views(r@) =~= before.push(pid as int));
            }
        }
        i = i + 1;
    }
    assert(all.take(i as int) =~= all);
    r
}

/// Whether numbers grow, so that none occurs twice.
pub open spec fn is_growing(v: Seq<i32>) -> bool {
    forall|i: int, j: int| 0 <= i < j < v.len() ==> #[trigger] v[i] < #[trigger] v[j]
}

fn add_pid(pids: &mut Vec<i32>, pid: i32)
    requires
        is_growing(old(pids)@),
    ensures
        is_growing(final(pids)@),
        forall|n: i32| final(pids)@.contains(n) <==> (old(pids)@.contains(n) || n == pid),
{
    let mut i: usize = 0;
    while i < pids.len() && pids[i] < pid
        invariant
            i <= pids@.len(),
            pids@ == old(pids)@,
            forall|k: int| 0 <= k < i ==> #[trigger] pids@[k] < pid,
        decreases pids@.len() - i,
    {
        i = i + 1;
    }
    let ghost before = pids@;
    if i < pids.len() && pids[i] == pid {
        assert(before[i as int] == pid);
        return ;
    }
    pids.insert(i, pid);
    proof {
        assert forall|a: int, b: int| 0 <= a < b < pids@.len() implies #[trigger] pids@[a]
            < #[trigger] pids@[b] by {
            let x = if a < i {
                a
            } else {
                a - 1
            };
            let y = if b < i {
                b
            } else {
                b - 1
            };
            if a != i && b != i {
                assert(pids@[a] == before[x] && pids@[b] == before[y]);
            } else if a == i {
                assert(pids@[b] == before[y]);
                if y > i {
                    assert(before[i as int] < before[y]);
                }
            } else {
                assert(pids@[a] == before[x]);
            }
        }
        assert forall|n: i32| pids@.contains(n) <==> (before.contains(n) || n == pid) by {
            if before.contains(n) {
                let k = choose|k: int| 0 <= k < before.len() && before[k] == n;
                if k < i {
                    assert(pids@[k] == n);
                } else {
                    assert(pids@[k + 1] == n);
                }
            }
            if n == pid {
                assert(pids@[i as int] == n);
            }
            if pids@.contains(n) {
                let k = choose|k: int| 0 <= k < pids@.len() && pids@[k] == n;
                if k < i {
                    assert(before[k] == n);
                } else if k > i {
                    assert(before[k - 1] == n);
                }
            }
        }
    }
}

/// A process that was found for an instance, and whether it still lives.
#[derive(Clone, Copy, PartialEq, Eq, Structural, Debug)]
pub struct FoundProcess {
    pub pid: i32,
    pub lives: bool,
}

/// The processes of an instance: its owner, if it lives, and those that were found and
/// live; each once, in order.
pub fn instance_pids(owner: Option<i32>, found: &Vec<FoundProcess>) -> (r: Vec<i32>)
    ensures
        is_growing(r@),
        forall|n: i32|
            r@.contains(n) <==> (owner == Some(n) || found@.contains(
                FoundProcess { pid: n, lives: true },
            )),
{
    let mut r: Vec<i32> = Vec::new();
    if let Some(pid) = owner {
        r.push(pid);
        assert(r@[0] == pid);
    }
    let mut i: usize = 0;
    assert(forall|n: i32| r@.contains(n) <==> owner == Some(n));
    while i < found.len()
        invariant
            i <= found@.len(),
            is_growing(r@),
            forall|n: i32|
                r@.contains(n) <==> (owner == Some(n) || found@.take(i as int).contains(
                    FoundProcess { pid: n, lives: true },
                )),
        decreases found@.len() - i,
    {
        if found[i].lives {
            add_pid(&mut r, found[i].pid);
        }
        proof {
            let now = found@.take(i + 1);
            let seen = found@.take(i as int);
            assert forall|n: i32|
                r@.contains(n) <==> (owner == Some(n) || now.contains(
                    FoundProcess { pid: n, lives: true },
                )) by {
                let f = FoundProcess { pid: n, lives: true };
                if seen.contains(f) {
                    let k = choose|k: int| 0 <= k < seen.len() && seen[k] == f;
                    assert(now[k] == f);
                }
                if f == found@[i as int] {
                    assert(now[i as int] == f);
                }
                if now.contains(f) {
                    let k = choose|k: int| 0 <= k < now.len() && now[k] == f;
                    if k < i {
                        assert(seen[k] == f);
                    }
                }
            }
        }
        i = i + 1;
    }
    assert(found@.take(i as int) =~= found@);
    r
}

// ---------------------------------------------------------------------------
// Starting
// ---------------------------------------------------------------------------

/// How long an instance that is started by hand stays without clients, in milliseconds.
pub const STARTED_IDLE_TTL_MS: u64 = 3600000;

/// Why an instance is not started.
#[derive(Debug, PartialEq, Eq)]
pub enum StartRefusal {
    Starting { instance: String },
    NoRootfs { instance: String },
}

impl StartRefusal {
    /// The message shown to the user.
    pub open spec fn text(self) -> Seq<char> {
        match self {
            StartRefusal::Starting { instance } => "instance is already starting: "@ + instance@,
            StartRefusal::NoRootfs { instance } => "instance is missing rootfs: "@ + instance@,
        }
    }

    /// The message shown to the user.
    pub fn message(&self) -> (m: String)
        ensures
            m@ == self.text(),
    {
        match self {
            StartRefusal::Starting { instance } => {
                let mut m: String = "instance is already starting: ".to_owned();
                m.append(instance.as_str());
                m
            },
            StartRefusal::NoRootfs { instance } => {
                let mut m: String = "instance is missing rootfs: ".to_owned();
                m.append(instance.as_str());
                m
            },
        }
    }
}

/// Whether an instance has to be started: a running one has not.
pub fn start_existing_instance(instance: &str, state: InstanceState) -> (r: Result<
    bool,
    StartRefusal,
>)
    ensures
        match state {
            InstanceState::Running => r == Ok::<bool, StartRefusal>(false),
            InstanceState::Starting => r matches Err(StartRefusal::Starting { instance: i }) && i@
                == instance@,
            InstanceState::Partial => r matches Err(StartRefusal::NoRootfs { instance: i }) && i@
                == instance@,
            InstanceState::Stopped => r == Ok::<bool, StartRefusal>(true),
        },
{
    match state {
        InstanceState::Running => Ok(false),
        InstanceState::Starting => Err(StartRefusal::Starting { instance: instance.to_owned() }),
        InstanceState::Partial => Err(StartRefusal::NoRootfs { instance: instance.to_owned() }),
        InstanceState::Stopped => Ok(true),
    }
}

/// The message for a start that failed: what the command said, or else its status.
pub fn start_failure_message(stderr: &str, status: &str, instance: &str) -> (m: String)
    ensures
        m@ == (if text::trimmed(stderr@).len() == 0 {
            "start exited with status "@ + status@ + ": "@ + instance@
        } else {
            text::trimmed(stderr@)
        }),
{
    let said: &str = text::trim(stderr);
    if said.is_empty() {
        let mut m: String = "start exited with status ".to_owned();
        m.append(status);
        m.append(": ");
        m.append(instance);
        m
    } else {
        said.to_owned()
    }
}

/// The command line that starts an instance.
pub open spec fn start_args(
    instance: Seq<char>,
    cpus: u8,
    memory_mib: u32,
    state: AppState,
    command: Seq<Seq<char>>,
) -> Seq<Seq<char>> {
    seq![
        "--instance"@,
        instance,
        "--cpus"@,
        text::dec(cpus as nat),
        "--memory-mib"@,
        text::dec(memory_mib as nat),
    ] + config::flag(state.nested_kvm, "--nested-kvm"@) + config::flag(
        state.no_host_shares,
        "--no-host-shares"@,
    ) + command
}

/// A value of the instance, or else that of the server.
pub open spec fn cpus_of(own: Option<u8>, state: AppState) -> u8 {
    match own {
        Some(n) => n,
        None => state.cpus,
    }
}

/// A value of the instance, or else that of the server.
pub open spec fn memory_of(own: Option<u32>, state: AppState) -> u32 {
    match own {
        Some(n) => n,
        None => state.memory_mib,
    }
}

/// The size of an instance: its own, or else that of the server.
pub fn instance_size(cpus: Option<u8>, memory_mib: Option<u32>, state: &AppState) -> (r: (u8, u32))
    ensures
        r == (cpus_of(cpus, *state), memory_of(memory_mib, *state)),
{
    let c: u8 = match cpus {
        Some(n) => n,
        None => state.cpus,
    };
    let m: u32 = match memory_mib {
        Some(n) => n,
        None => state.memory_mib,
    };
    (c, m)
}

/// The command line that starts an instance and runs a command in it.
pub fn build_instance_start_command(
    instance: &str,
    cpus: Option<u8>,
    memory_mib: Option<u32>,
    state: &AppState,
    command: &Vec<String>,
) -> (args: Vec<String>)
    ensures
        text::views(args@) == start_args(
            instance@,
            cpus_of(cpus, *state),
            memory_of(memory_mib, *state),
            *state,
            text::views(command@),
        ),
{
    let (c, m): (u8, u32) = instance_size(cpus, memory_mib, state);
    let mut args: Vec<String> = Vec::new();
    assert(text::views(args@) =~= Seq::<Seq<char>>::empty());
    config::push_pair(&mut args, "--instance", instance);
    config::push_pair(&mut args, "--cpus", text::decimal(c as u128).as_str());
    config::push_pair(&mut args, "--memory-mib", text::decimal(m as u128).as_str());
    let ghost head = seq![
        "--instance"@,
        instance@,
        "--cpus"@,
        text::dec(c as nat),
        "--memory-mib"@,
        text::dec(m as nat),
    ];
    assert(text::views(args@) =~= head);
    if state.nested_kvm {
        config::push_arg(&mut args, "--nested-kvm");
    }
    assert(text::views(args@) =~= head + config::flag(state.nested_kvm, "--nested-kvm"@));
    let ghost before = text::views(args@);
    if state.no_host_shares {
        config::push_arg(&mut args, "--no-host-shares");
    }
    assert(text::views(args@) =~= before + config::flag(
        state.no_host_shares,
        "--no-host-shares"@,
    ));
    let ghost options = text::views(args@);
    let mut own: Vec<String> = text::copy_all(command);
    let ghost tail = own@;
    args.append(&mut own);
    assert(text::views(args@) =~= options + text::views(tail));
    args
}

/// The command that an imported instance is started with: the one that was asked for, or
/// else one that does nothing.
pub fn start_command(command: &Vec<String>) -> (r: Vec<String>)
    ensures
        text::views(r@) == (if command@.len() == 0 {
            seq!["true"@]
        } else {
            text::views(command@)
        }),
{
    if command.len() == 0 {
        let mut r: Vec<String> = Vec::new();
        r.push("true".to_owned());
        assert(text::views(r@) =~= seq!["true"@]);
        r
    } else {
        text::copy_all(command)
    }
}

// ---------------------------------------------------------------------------
// Stopping
// ---------------------------------------------------------------------------

/// How long stopping an instance may take, in milliseconds.
pub const STOP_TIMEOUT_MS: u64 = 120000;

/// Where stopping an instance stands.
#[derive(Clone, Copy, PartialEq, Eq, Structural, Debug)]
pub enum StopPhase {
    /// Look whether there is anything to stop.
    Begin,
    /// Wait for the lock under which owners are started.
    StartLock,
    /// Under that lock, look for the owner.
    FindOwner,
    /// No owner lives: look at the lease that one may have left.
    Lease,
    /// Wait for an owner to end.
    AwaitExit(i32),
    Over,
}

/// Stopping an instance: where it stands, and which owner was asked to end.
#[derive(Clone, Copy, PartialEq, Eq, Structural, Debug)]
pub struct Stop {
    pub phase: StopPhase,
    pub signaled: Option<i32>,
}

/// What is seen of an instance that is being stopped. The lease is looked at only in the
/// phase for it.
#[derive(Clone, Copy, PartialEq, Eq, Structural, Debug)]
pub struct StopSeen {
    /// Whether the instance has any directory.
    pub present: bool,
    /// The owner that lives.
    pub owner: Option<i32>,
    /// Whether the lock under which owners are started was taken.
    pub start_lock: bool,
    /// Whether the time is up.
    pub expired: bool,
    pub lease: LeaseSeen,
}

/// What is seen of the lease of an instance.
#[derive(Clone, Copy, PartialEq, Eq, Structural, Debug)]
pub struct LeaseSeen {
    /// Whether there is one.
    pub lock_exists: bool,
    /// The owner that it names.
    pub recorded: Option<i32>,
    /// Whether that owner lives.
    pub recorded_lives: bool,
    /// Whether it names a process that copies the instance, and whether that lives.
    pub maintenance: Option<bool>,
}

/// Why stopping an instance is given up.
#[derive(Clone, Copy, PartialEq, Eq, Structural, Debug)]
pub enum StopFailure {
    /// It did not finish starting.
    StillStarting,
    /// The copy of its state did not finish.
    StillCopying,
    /// Its lease names nobody.
    IncompleteLease,
    /// It got another owner.
    OwnerChanged { pid: i32, current: i32 },
    /// The owner did not end. It is left running, so that nothing is lost.
    LeftRunning { pid: i32 },
}

/// What is done next to stop an instance.
#[derive(Clone, Copy, PartialEq, Eq, Structural, Debug)]
pub enum StopNext {
    /// There was nothing to stop.
    Done,
    /// Look again.
    Again,
    /// Look again after this many milliseconds.
    Sleep(u64),
    /// No owner lives: check how the last one ended, where one is expected.
    Verify(Option<i32>),
    Fail(StopFailure),
}

/// A step of stopping an instance: an owner is asked to end, where one is given, and then
/// the next is done.
#[derive(Clone, Copy, PartialEq, Eq, Structural, Debug)]
pub struct StopStep {
    pub signal: Option<i32>,
    pub next: StopNext,
}

/// The owner to be asked to end: the one that lives, unless it was asked before.
pub open spec fn to_signal(stop: Stop, owner: Option<i32>) -> Option<i32> {
    if owner is Some && stop.signaled != owner {
        owner
    } else {
        None
    }
}

/// The owner that was asked to end last.
pub open spec fn now_signaled(stop: Stop, owner: Option<i32>) -> Option<i32> {
    if owner is Some {
        owner
    } else {
        stop.signaled
    }
}

/// What is done to stop an instance, for what is seen of it.
///
/// The process that launched the first command keeps the lock under which owners are
/// started until that command returns. So an established owner is asked to end first:
/// that releases the command, and with it the lock.
pub open spec fn stop_response(stop: Stop, seen: StopSeen) -> (Stop, StopStep) {
    let over = Stop { phase: StopPhase::Over, ..stop };
    match stop.phase {
        StopPhase::Begin => if !seen.present {
            (over, StopStep { signal: None, next: StopNext::Done })
        } else {
            (
                Stop { phase: StopPhase::StartLock, signaled: now_signaled(stop, seen.owner) },
                StopStep { signal: to_signal(stop, seen.owner), next: StopNext::Again },
            )
        },
        StopPhase::StartLock => if seen.start_lock {
            (
                Stop { phase: StopPhase::FindOwner, ..stop },
                StopStep { signal: None, next: StopNext::Again },
            )
        } else if seen.expired {
            (
                Stop { phase: StopPhase::Over, signaled: now_signaled(stop, seen.owner) },
                StopStep {
                    signal: to_signal(stop, seen.owner),
                    next: StopNext::Fail(StopFailure::StillStarting),
                },
            )
        } else {
            (
                Stop { phase: StopPhase::StartLock, signaled: now_signaled(stop, seen.owner) },
                StopStep { signal: to_signal(stop, seen.owner), next: StopNext::Sleep(10) },
            )
        },
        StopPhase::FindOwner => match seen.owner {
            Some(pid) => (
                Stop { phase: StopPhase::AwaitExit(pid), signaled: Some(pid) },
                StopStep { signal: to_signal(stop, seen.owner), next: StopNext::Again },
            ),
            None => (
                Stop { phase: StopPhase::Lease, ..stop },
                StopStep { signal: None, next: StopNext::Again },
            ),
        },
        StopPhase::Lease => {
            let look = Stop { phase: StopPhase::FindOwner, ..stop };
            let lease = seen.lease;
            if lease.recorded is Some && lease.recorded_lives {
                (look, StopStep { signal: None, next: StopNext::Again })
            } else if lease.maintenance == Some(true) {
                if seen.expired {
                    (
                        over,
                        StopStep {
                            signal: None,
                            next: StopNext::Fail(StopFailure::StillCopying),
                        },
                    )
                } else {
                    (look, StopStep { signal: None, next: StopNext::Sleep(10) })
                }
            } else if lease.lock_exists && lease.recorded is None && lease.maintenance is None {
                if seen.expired {
                    (
                        over,
                        StopStep {
                            signal: None,
                            next: StopNext::Fail(StopFailure::IncompleteLease),
                        },
                    )
                } else {
                    (look, StopStep { signal: None, next: StopNext::Sleep(10) })
                }
            } else {
                let expected = match stop.signaled {
                    Some(pid) => Some(pid),
                    None => lease.recorded,
                };
                (over, StopStep { signal: None, next: StopNext::Verify(expected) })
            }
        },
        StopPhase::AwaitExit(pid) => match seen.owner {
            None => (over, StopStep { signal: None, next: StopNext::Verify(Some(pid)) }),
            Some(current) => if current != pid {
                (
                    over,
                    StopStep {
                        signal: None,
                        next: StopNext::Fail(StopFailure::OwnerChanged { pid, current }),
                    },
                )
            } else if seen.expired {
                (
                    over,
                    StopStep {
                        signal: None,
                        next: StopNext::Fail(StopFailure::LeftRunning { pid }),
                    },
                )
            } else {
                (stop, StopStep { signal: None, next: StopNext::Sleep(50) })
            },
        },
        StopPhase::Over => (stop, StopStep { signal: None, next: StopNext::Done }),
    }
}

fn lease_step(stop: Stop, lease: LeaseSeen, expired: bool) -> (r: (Stop, StopStep))
    requires
        stop.phase is Lease,
    ensures
        forall|seen: StopSeen|
            seen.lease == lease && seen.expired == expired ==> r == #[trigger] stop_response(
                stop,
                seen,
            ),
{
    let look: Stop = Stop { phase: StopPhase::FindOwner, signaled: stop.signaled };
    let over: Stop = Stop { phase: StopPhase::Over, signaled: stop.signaled };
    let (copies, copying): (bool, bool) = match lease.maintenance {
        Some(lives) => (true, lives),
        None => (false, false),
    };
    if lease.recorded.is_some() && lease.recorded_lives {
        return (look, StopStep { signal: None, next: StopNext::Again });
    }
    if copying {
        return if expired {
            (
                over,
                StopStep { signal: None, next: StopNext::Fail(StopFailure::StillCopying) },
            )
        } else {
            (look, StopStep { signal: None, next: StopNext::Sleep(10) })
        };
    }
    if lease.lock_exists && lease.recorded.is_none() && !copies {
        return if expired {
            (
                over,
                StopStep { signal: None, next: StopNext::Fail(StopFailure::IncompleteLease) },
            )
        } else {
            (look, StopStep { signal: None, next: StopNext::Sleep(10) })
        };
    }
    let expected: Option<i32> = match stop.signaled {
        Some(pid) => Some(pid),
        None => lease.recorded,
    };
    (over, StopStep { signal: None, next: StopNext::Verify(expected) })
}

/// Decides what is done to stop an instance.
pub fn stop_step(stop: Stop, seen: StopSeen) -> (r: (Stop, StopStep))
    ensures
        r == stop_response(stop, seen),
{
    let over: Stop = Stop { phase: StopPhase::Over, signaled: stop.signaled };
    let asked_before: bool = match (seen.owner, stop.signaled) {
        (Some(a), Some(b)) => a == b,
        _ => false,
    };
    let signal: Option<i32> = if asked_before {
        None
    } else {
        seen.owner
    };
    let signaled: Option<i32> = if seen.owner.is_some() {
        seen.owner
    } else {
        stop.signaled
    };
    match stop.phase {
        StopPhase::Begin => if !seen.present {
            (over, StopStep { signal: None, next: StopNext::Done })
        } else {
            (
                Stop { phase: StopPhase::StartLock, signaled },
                StopStep { signal, next: StopNext::Again },
            )
        },
        StopPhase::StartLock => if seen.start_lock {
            (
                Stop { phase: StopPhase::FindOwner, signaled: stop.signaled },
                StopStep { signal: None, next: StopNext::Again },
            )
        } else if seen.expired {
            (
                Stop { phase: StopPhase::Over, signaled },
                StopStep { signal, next: StopNext::Fail(StopFailure::StillStarting) },
            )
        } else {
            (
                Stop { phase: StopPhase::StartLock, signaled },
                StopStep { signal, next: StopNext::Sleep(10) },
            )
        },
        StopPhase::FindOwner => match seen.owner {
            Some(pid) => (
                Stop { phase: StopPhase::AwaitExit(pid), signaled: Some(pid) },
                StopStep { signal, next: StopNext::Again },
            ),
            None => (
                Stop { phase: StopPhase::Lease, signaled: stop.signaled },
                StopStep { signal: None, next: StopNext::Again },
            ),
        },
        StopPhase::Lease => lease_step(stop, seen.lease, seen.expired),
        StopPhase::AwaitExit(pid) => match seen.owner {
            None => (over, StopStep { signal: None, next: StopNext::Verify(Some(pid)) }),
            Some(current) => if current != pid {
                (
                    over,
                    StopStep {
                        signal: None,
                        next: StopNext::Fail(StopFailure::OwnerChanged { pid, current }),
                    },
                )
            } else if seen.expired {
                (
                    over,
                    StopStep { signal: None, next: StopNext::Fail(StopFailure::LeftRunning { pid }) },
                )
            } else {
                (stop, StopStep { signal: None, next: StopNext::Sleep(50) })
            },
        },
        StopPhase::Over => (stop, StopStep { signal: None, next: StopNext::Done }),
    }
}

/// Where stopping an instance begins.
pub fn begin_stop() -> (s: Stop)
    ensures
        s == (Stop { phase: StopPhase::Begin, signaled: None }),
{
    Stop { phase: StopPhase::Begin, signaled: None }
}

/// An owner is not asked to end twice in a row.
pub proof fn lemma_owner_is_asked_once(stop: Stop, seen: StopSeen)
    ensures
        stop_response(stop, seen).1.signal matches Some(pid) ==> {
            &&& stop.signaled != Some(pid)
            &&& stop_response(stop, seen).0.signaled == Some(pid)
            &&& seen.owner == Some(pid)
        },
{
}

/// An instance is found stopped only when no owner was seen: neither the one that was
/// waited for, nor the one that the lease names.
pub proof fn lemma_stopped_means_no_owner(stop: Stop, seen: StopSeen)
    requires
        stop_response(stop, seen).1.next is Verify,
    ensures
        match stop.phase {
            StopPhase::AwaitExit(pid) => seen.owner is None && stop_response(stop, seen).1.next
                == StopNext::Verify(Some(pid)),
            StopPhase::Lease => !(seen.lease.recorded is Some && seen.lease.recorded_lives)
                && seen.lease.maintenance != Some(true),
            _ => false,
        },
{
}

/// Seconds, from milliseconds: whole ones, with what is left behind a point.
pub open spec fn seconds_text(ms: nat) -> Seq<char> {
    if ms % 1000 == 0 {
        text::dec(ms / 1000)
    } else if ms % 100 == 0 {
        text::dec(ms / 1000) + "."@ + text::dec((ms % 1000) / 100)
    } else if ms % 10 == 0 {
        text::dec(ms / 1000) + "."@ + text::dec_padded((ms % 1000) / 10, 2)
    } else {
        text::dec(ms / 1000) + "."@ + text::dec_padded(ms % 1000, 3)
    }
}

fn push_seconds(m: &mut String, ms: u64)
    ensures
        final(m)@ == old(m)@ + seconds_text(ms as nat),
{
    let ghost before = m@;
    text::push_dec(m, (ms / 1000) as u128);
    if ms % 1000 != 0 {
        m.append(".");
        if ms % 100 == 0 {
            text::push_dec(m, ((ms % 1000) / 100) as u128);
        } else if ms % 10 == 0 {
            m.append(text::decimal_padded(((ms % 1000) / 10) as u128, 2).as_str());
        } else {
            m.append(text::decimal_padded((ms % 1000) as u128, 3).as_str());
        }
    }
    assert(m@ =~= before + seconds_text(ms as nat));
}

/// The message for a stop that was given up.
pub open spec fn stop_failure_text(
    failure: StopFailure,
    instance: Seq<char>,
    lock_dir: Seq<char>,
    timeout_ms: u64,
) -> Seq<char> {
    let secs = seconds_text(timeout_ms as nat);
    match failure {
        StopFailure::StillStarting => "instance "@ + instance + " did not finish starting within "@
            + secs + " seconds; retry stop"@,
        StopFailure::StillCopying => "instance "@ + instance + " state copy did not finish within "@
            + secs + " seconds; retry stop"@,
        StopFailure::IncompleteLease => "instance "@ + instance
            + " owner lease remained incomplete at "@ + lock_dir + " for "@ + secs
            + " seconds; run lnx --instance "@ + instance
            + " snapshots clear to acknowledge and explicitly cold-boot"@,
        StopFailure::OwnerChanged { pid, current } => "instance "@ + instance
            + " changed VM owner from pid "@ + text::dec_signed(pid as int) + " to pid "@
            + text::dec_signed(current as int) + " while stopping"@,
        StopFailure::LeftRunning { pid } => "owner process "@ + text::dec_signed(pid as int)
            + " for instance "@ + instance + " did not finish its shutdown snapshot within "@ + secs
            + " seconds; it was left running so recoverable state is not discarded"@,
    }
}

/// The message for a stop that was given up.
pub fn stop_failure_message(
    failure: StopFailure,
    instance: &str,
    lock_dir: &str,
    timeout_ms: u64,
) -> (m: String)
    ensures
        m@ == stop_failure_text(failure, instance@, lock_dir@, timeout_ms),
{
    match failure {
        StopFailure::StillStarting => {
            let mut m: String = "instance ".to_owned();
            m.append(instance);
            m.append(" did not finish starting within ");
            push_seconds(&mut m, timeout_ms);
            m.append(" seconds; retry stop");
            m
        },
        StopFailure::StillCopying => {
            let mut m: String = "instance ".to_owned();
            m.append(instance);
            m.append(" state copy did not finish within ");
            push_seconds(&mut m, timeout_ms);
            m.append(" seconds; retry stop");
            m
        },
        StopFailure::IncompleteLease => {
            let mut m: String = "instance ".to_owned();
            m.append(instance);
            m.append(" owner lease remained incomplete at ");
            m.append(lock_dir);
            m.append(" for ");
            push_seconds(&mut m, timeout_ms);
            m.append(" seconds; run lnx --instance ");
            m.append(instance);
            m.append(" snapshots clear to acknowledge and explicitly cold-boot");
            m
        },
        StopFailure::OwnerChanged { pid, current } => {
            let mut m: String = "instance ".to_owned();
            m.append(instance);
            m.append(" changed VM owner from pid ");
            m.append(text::decimal_signed(pid as i64).as_str());
            m.append(" to pid ");
            m.append(text::decimal_signed(current as i64).as_str());
            m.append(" while stopping");
            m
        },
        StopFailure::LeftRunning { pid } => {
            let mut m: String = "owner process ".to_owned();
            m.append(text::decimal_signed(pid as i64).as_str());
            m.append(" for instance ");
            m.append(instance);
            m.append(" did not finish its shutdown snapshot within ");
            push_seconds(&mut m, timeout_ms);
            m.append(" seconds; it was left running so recoverable state is not discarded");
            m
        },
    }
}

/// The message for a lease that cannot be read.
pub fn corrupt_lease_message(instance: &str) -> (m: String)
    ensures
        m@ == "instance "@ + instance@
            + " has a corrupt owner lease; recovery: lnx --instance "@ + instance@
            + " snapshots clear to acknowledge and explicitly cold-boot"@,
{
    let mut m: String = "instance ".to_owned();
    m.append(instance);
    m.append(" has a corrupt owner lease; recovery: lnx --instance ");
    m.append(instance);
    m.append(" snapshots clear to acknowledge and explicitly cold-boot");
    m
}

/// What is found of an instance whose owner has ended.
#[derive(Debug, PartialEq, Eq)]
pub enum ShutdownCheck {
    /// It got another owner while it was looked at.
    NewOwner,
    /// A restored VM's work was not published.
    Unpublished { work: String },
    /// The owner's number cannot be one.
    BadPid,
    /// What is to be done about the owner that ended.
    Ended(StoppedOwner),
    /// Nothing is known of an owner, and nothing on record keeps the instance from being
    /// started.
    Free,
    /// What is recorded keeps it from being started.
    Blocked(OutcomeError),
    /// What is recorded cannot be read.
    Unreadable,
}

/// Whether this is what is found of an instance whose owner has ended.
pub open spec fn is_shutdown_check(
    layout: paths::Layout,
    new_owner: bool,
    work_active: bool,
    expected_pid: Option<i32>,
    recorded: Result<Option<FinalSnapshotOutcome>, OutcomeReadError>,
    r: ShutdownCheck,
) -> bool {
    if new_owner {
        r is NewOwner
    } else if work_active {
        r matches ShutdownCheck::Unpublished { work } && work@ == paths::joined(
            layout.snapshot_dir@,
            publish::RESTORE_WORK_SNAPSHOT@,
        )
    } else if expected_pid is Some && expected_pid->Some_0 < 0 {
        r is BadPid
    } else if expected_pid is Some {
        r matches ShutdownCheck::Ended(s) && outcome::is_stopped_owner(
            layout.instance@,
            expected_pid->Some_0 as u32,
            recorded,
            s,
        )
    } else if recorded is Err {
        r is Unreadable
    } else if outcome::outcome_passes(None, outcome::outcome_view(recorded->Ok_0)) {
        r is Free
    } else {
        r matches ShutdownCheck::Blocked(e) && outcome::is_outcome_error(
            layout.instance@,
            None,
            outcome::outcome_view(recorded->Ok_0),
            e,
        )
    }
}

/// Checks how the last owner of an instance ended. A lease that is not stale means that
/// there is another owner.
pub fn ensure_shutdown_state(
    layout: &paths::Layout,
    lock_exists: bool,
    lock_is_stale: bool,
    work_active: bool,
    expected_pid: Option<i32>,
    recorded: &Result<Option<FinalSnapshotOutcome>, OutcomeReadError>,
) -> (r: ShutdownCheck)
    ensures
        is_shutdown_check(
            *layout,
            lock_exists && !lock_is_stale,
            work_active,
            expected_pid,
            *recorded,
            r,
        ),
{
    if lock_exists && !lock_is_stale {
        return ShutdownCheck::NewOwner;
    }
    if work_active {
        return ShutdownCheck::Unpublished { work: publish::restore_work_snapshot(layout) };
    }
    match expected_pid {
        Some(pid) => {
            if pid < 0 {
                return ShutdownCheck::BadPid;
            }
            ShutdownCheck::Ended(
                outcome::validate_or_record_final_snapshot_failure(
                    layout.instance.as_str(),
                    pid as u32,
                    recorded,
                ),
            )
        },
        None => match recorded {
            Err(_) => ShutdownCheck::Unreadable,
            Ok(o) => match outcome::validate_final_snapshot_outcome(
                layout.instance.as_str(),
                None,
                o,
            ) {
                Ok(()) => ShutdownCheck::Free,
                Err(e) => ShutdownCheck::Blocked(e),
            },
        },
    }
}

/// An instance counts as stopped only if nothing of its last owner's work is unpublished
/// and nothing on record keeps it from being started.
pub proof fn lemma_stopped_well(
    layout: paths::Layout,
    new_owner: bool,
    work_active: bool,
    expected_pid: Option<i32>,
    recorded: Result<Option<FinalSnapshotOutcome>, OutcomeReadError>,
    r: ShutdownCheck,
)
    requires
        is_shutdown_check(layout, new_owner, work_active, expected_pid, recorded, r),
        r is Free || r == ShutdownCheck::Ended(StoppedOwner::Fine),
    ensures
        !new_owner,
        !work_active,
        recorded matches Ok(o) && outcome::outcome_passes(None, outcome::outcome_view(o)),
{
}

/// The message for a restored VM's work that was not published.
pub fn unpublished_message(instance: &str, work: &str) -> (m: String)
    ensures
        m@ == "instance "@ + instance@
            + " stopped without publishing its final snapshot; recoverable state remains at "@
            + work@ + "\nrecovery: preserve it for inspection, or run lnx --instance "@ + instance@
            + " snapshots clear to explicitly discard it"@,
{
    let mut m: String = "instance ".to_owned();
    m.append(instance);
    m.append(" stopped without publishing its final snapshot; recoverable state remains at ");
    m.append(work);
    m.append("\nrecovery: preserve it for inspection, or run lnx --instance ");
    m.append(instance);
    m.append(" snapshots clear to explicitly discard it");
    m
}

/// The message for an instance that got another owner while it was looked at.
pub fn new_owner_message(instance: &str) -> (m: String)
    ensures
        m@ == "instance "@ + instance@
            + " acquired a new VM owner while shutdown was being verified; retry stop"@,
{
    let mut m: String = "instance ".to_owned();
    m.append(instance);
    m.append(" acquired a new VM owner while shutdown was being verified; retry stop");
    m
}

// ---------------------------------------------------------------------------
// Laws of the list
// ---------------------------------------------------------------------------

/// A list keeps what it held, in the order it had, and gets the one instance more: behind
/// all that do not come after it, and before all others.
pub proof fn lemma_listing_adds_one(list: Seq<InstanceSummary>, s: InstanceSummary)
    ensures
        exists|i: int|
            0 <= i <= list.len() && #[trigger] list.insert(i, s) == listed(list, s) && (i > 0
                ==> summary_order(list[i - 1], s) <= 0) && (forall|k: int|
                i <= k < list.len() ==> summary_order(#[trigger] list[k], s) > 0),
    decreases list.len(),
{
    if list.len() == 0 || summary_order(list.last(), s) <= 0 {
        assert(list.insert(list.len() as int, s) =~= list.push(s));
    } else {
        let front = list.drop_last();
        lemma_listing_adds_one(front, s);
        let i = choose|i: int|
            0 <= i <= front.len() && #[trigger] front.insert(i, s) == listed(front, s) && (i > 0
                ==> summary_order(front[i - 1], s) <= 0) && (forall|k: int|
                i <= k < front.len() ==> summary_order(#[trigger] front[k], s) > 0);
        assert(list.insert(i, s) =~= front.insert(i, s).push(list.last()));
        assert forall|k: int| i <= k < list.len() implies summary_order(#[trigger] list[k], s)
            > 0 by {
            if k < front.len() {
                assert(front[k] == list[k]);
            }
        }
        if i > 0 {
            assert(front[i - 1] == list[i - 1]);
        }
    }
}

/// Running instances come before those that start, these before stopped ones, and partial
/// ones come last; within one state names decide, first without regard to case.
pub proof fn lemma_order_of_the_list(a: InstanceSummary, b: InstanceSummary)
    ensures
        a.state is Running && !(b.state is Running) ==> summary_order(a, b) < 0,
        a.state is Starting && (b.state is Stopped || b.state is Partial) ==> summary_order(a, b)
            < 0,
        a.state is Stopped && b.state is Partial ==> summary_order(a, b) < 0,
        a.state == b.state && lower(a.name@) != lower(b.name@) ==> summary_order(a, b)
            == text::text_order(lower(a.name@), lower(b.name@)),
        a.state == b.state && lower(a.name@) == lower(b.name@) ==> summary_order(a, b)
            == text::text_order(a.name@, b.name@),
{
    text::lemma_text_order(lower(a.name@), lower(b.name@), lower(a.name@));
    lemma_summary_order(a, b, a);
}

/// Small letters stand for capital ones, place by place, and nothing else changes; so
/// names are alike exactly where they differ in case alone.
pub proof fn lemma_lower(s: Seq<char>)
    ensures
        lower(s).len() == s.len(),
        forall|i: int|
            0 <= i < s.len() ==> ((#[trigger] s[i]) as u32 >= 65 && s[i] as u32 <= 90 ==> lower(
                s,
            )[i] as u32 == s[i] as u32 + 32) && (!(s[i] as u32 >= 65 && s[i] as u32 <= 90)
                ==> lower(s)[i] == s[i]),
        lower(lower(s)) == lower(s),
{
    assert forall|i: int| 0 <= i < s.len() implies lower_char(#[trigger] lower_char(s[i]))
        == lower_char(s[i]) by {}
    assert(lower(lower(s)) =~= lower(s));
}

/// Every line that holds a number gives that number, in the order of the lines, and the
/// process that searched is left out.
pub proof fn lemma_found_processes(
    a: Seq<Seq<char>>,
    b: Seq<Seq<char>>,
    line: Seq<char>,
    own: i32,
)
    ensures
        pids_in(a + b, own) == pids_in(a, own) + pids_in(b, own),
        pids_in(seq![line], own) == (match text::parsed_i32(text::trimmed(line)) {
            Some(pid) => if pid != own {
                seq![pid]
            } else {
                Seq::<int>::empty()
            },
            None => Seq::<int>::empty(),
        }),
    decreases b.len(),
{
    reveal_with_fuel(pids_in, 2);
    assert(seq![line].drop_last() =~= Seq::<Seq<char>>::empty());
    assert(pids_in(seq![line], own) =~= (match text::parsed_i32(text::trimmed(line)) {
        Some(pid) => if pid != own {
            seq![pid]
        } else {
            Seq::<int>::empty()
        },
        None => Seq::<int>::empty(),
    }));
    if b.len() == 0 {
        assert(a + b =~= a);
        assert(pids_in(a, own) + pids_in(b, own) =~= pids_in(a, own));
    } else {
        lemma_found_processes(a, b.drop_last(), line, own);
        assert((a + b).drop_last() =~= a + b.drop_last());
        assert(pids_in(a + b, own) =~= pids_in(a, own) + pids_in(b, own));
    }
}

// ---------------------------------------------------------------------------
// Laws of starting and stopping
// ---------------------------------------------------------------------------

/// An instance is started under its name, with its own size where it has one and else
/// that of the server, with the server's flags, and then the command.
pub proof fn lemma_start_args(
    instance: Seq<char>,
    cpus: Option<u8>,
    memory_mib: Option<u32>,
    state: AppState,
    command: Seq<Seq<char>>,
)
    ensures
        ({
            let args = start_args(
                instance,
                cpus_of(cpus, state),
                memory_of(memory_mib, state),
                state,
                command,
            );
            let flags = (if state.nested_kvm {
                1int
            } else {
                0int
            }) + (if state.no_host_shares {
                1int
            } else {
                0int
            });
            &&& args.len() == 6 + flags + command.len()
            &&& args[0] == "--instance"@ && args[1] == instance
            &&& args[2] == "--cpus"@ && args[3] == text::dec(
                match cpus {
                    Some(n) => n as nat,
                    None => state.cpus as nat,
                },
            )
            &&& args[4] == "--memory-mib"@ && args[5] == text::dec(
                match memory_mib {
                    Some(n) => n as nat,
                    None => state.memory_mib as nat,
                },
            )
            &&& state.nested_kvm ==> args[6] == "--nested-kvm"@
            &&& state.no_host_shares ==> args[6 + flags - 1] == "--no-host-shares"@
            &&& args.skip(6 + flags) == command
        }),
{
    let args = start_args(
        instance,
        cpus_of(cpus, state),
        memory_of(memory_mib, state),
        state,
        command,
    );
    let flags = (if state.nested_kvm {
        1int
    } else {
        0int
    }) + (if state.no_host_shares {
        1int
    } else {
        0int
    });
    assert(args.skip(6 + flags) =~= command);
}

/// An owner that lives and was not asked before is asked to end: at once, while the lock
/// is waited for, and when it is found under the lock; and nobody else is ever asked.
pub proof fn lemma_living_owner_is_asked(stop: Stop, seen: StopSeen)
    ensures
        stop_response(stop, seen).1.signal == (if seen.owner is Some && stop.signaled != seen.owner
            && ((stop.phase is Begin && seen.present) || (stop.phase is StartLock
            && !seen.start_lock) || stop.phase is FindOwner) {
            seen.owner
        } else {
            None
        }),
        stop_response(stop, seen).0.signaled == (match stop_response(stop, seen).1.signal {
            Some(pid) => Some(pid),
            None => stop.signaled,
        }),
{
}

/// A stop is given up only when its time is up or the instance got another owner; an
/// owner that does not end in time is left running.
pub proof fn lemma_when_a_stop_is_given_up(stop: Stop, seen: StopSeen)
    ensures
        stop_response(stop, seen).1.next matches StopNext::Fail(failure) ==> match failure {
            StopFailure::StillStarting => stop.phase is StartLock && seen.expired
                && !seen.start_lock,
            StopFailure::StillCopying => stop.phase is Lease && seen.expired
                && seen.lease.maintenance == Some(true),
            StopFailure::IncompleteLease => stop.phase is Lease && seen.expired
                && seen.lease.lock_exists && seen.lease.recorded is None
                && seen.lease.maintenance is None,
            StopFailure::OwnerChanged { pid, current } => stop.phase == StopPhase::AwaitExit(pid)
                && seen.owner == Some(current) && current != pid,
            StopFailure::LeftRunning { pid } => stop.phase == StopPhase::AwaitExit(pid)
                && seen.owner == Some(pid) && seen.expired,
        },
        stop.phase is StartLock && seen.expired && !seen.start_lock ==> stop_response(
            stop,
            seen,
        ).1.next is Fail,
        (stop.phase matches StopPhase::AwaitExit(pid) && seen.owner is Some && (seen.expired
            || seen.owner != Some(pid))) ==> stop_response(stop, seen).1.next is Fail,
{
}

/// An instance is found stopped when the owner that was waited for is gone, or when no
/// owner was found and its lease, if there is one, names one that does not live; the owner
/// whose end is then looked up is the one that was asked, and else the one of the lease.
pub proof fn lemma_when_an_instance_is_stopped(stop: Stop, seen: StopSeen)
    ensures
        (stop_response(stop, seen).1.next is Verify) <==> ((stop.phase is AwaitExit
            && seen.owner is None) || (stop.phase is Lease && !(seen.lease.recorded is Some
            && seen.lease.recorded_lives) && seen.lease.maintenance != Some(true) && (
        !seen.lease.lock_exists || seen.lease.recorded is Some || seen.lease.maintenance is Some))),
        (stop_response(stop, seen).1.next is Done) <==> ((stop.phase is Begin && !seen.present)
            || stop.phase is Over),
        stop_response(stop, seen).1.next matches StopNext::Verify(expected) ==> expected == (
        match stop.phase {
            StopPhase::AwaitExit(pid) => Some(pid),
            _ => if stop.signaled is Some {
                stop.signaled
            } else {
                seen.lease.recorded
            },
        }),
        (stop_response(stop, seen).0.phase is Over) <==> (stop_response(stop, seen).1.next is Done
            || stop_response(stop, seen).1.next is Fail || stop_response(stop, seen).1.next
            is Verify),
{
}

/// Where a stop goes on: from the beginning to the lock, under the lock to the owner, from
/// there to the end of the owner that was found or to the lease, and from the lease back.
pub proof fn lemma_stop_goes_on(stop: Stop, seen: StopSeen)
    requires
        !(stop_response(stop, seen).0.phase is Over),
    ensures
        match stop.phase {
            StopPhase::Begin => stop_response(stop, seen).0.phase is StartLock,
            StopPhase::StartLock => (stop_response(stop, seen).0.phase is FindOwner)
                == seen.start_lock && (stop_response(stop, seen).0.phase is StartLock)
                == !seen.start_lock,
            StopPhase::FindOwner => stop_response(stop, seen).0.phase == (match seen.owner {
                Some(pid) => StopPhase::AwaitExit(pid),
                None => StopPhase::Lease,
            }),
            StopPhase::Lease => stop_response(stop, seen).0.phase is FindOwner,
            StopPhase::AwaitExit(pid) => stop_response(stop, seen).0.phase
                == StopPhase::AwaitExit(pid) && seen.owner == Some(pid),
            StopPhase::Over => false,
        },
{
}

/// A search that found a process on a line of its own names it, whatever its number.
pub proof fn lemma_found_process(pid: i32, own: i32)
    ensures
        pids_in(seq![text::dec_signed(pid as int)], own) == (if pid != own {
            seq![pid as int]
        } else {
            Seq::<int>::empty()
        }),
{
    let line = text::dec_signed(pid as int);
    text::lemma_signed_round_trip(pid as int);
    if pid < 0 {
        text::lemma_dec_round_trip((-pid) as nat);
    } else {
        text::lemma_dec_round_trip(pid as nat);
    }
    assert(line.len() > 0);
    assert(!text::is_space(line[0])) by {
        if pid >= 0 {
            assert(text::is_digit(line[0]));
        }
    }
    assert(!text::is_space(line.last())) by {
        if pid < 0 {
            let d = text::dec((-pid) as nat);
            assert(text::is_digit(d[d.len() - 1]));
            assert(line.last() == d[d.len() - 1]);
        } else {
            assert(text::is_digit(line[line.len() - 1]));
        }
    }
    assert(text::trimmed(line) == line);
    lemma_found_processes(Seq::empty(), Seq::empty(), line, own);
}

/// Whole seconds are shown as such, and what is left of one behind a point, to the
/// millisecond and without zeros at its end.
pub proof fn lemma_seconds(s: nat, tenths: nat, hundredths: nat, thousandths: nat)
    requires
        tenths < 10,
        hundredths < 100,
        thousandths < 1000,
    ensures
        seconds_text(1000 * s) == text::dec(s),
        tenths > 0 ==> seconds_text(1000 * s + 100 * tenths) == text::dec(s) + "."@ + text::dec(
            tenths,
        ),
        hundredths % 10 > 0 ==> seconds_text(1000 * s + 10 * hundredths) == text::dec(s) + "."@
            + text::dec_padded(hundredths, 2),
        thousandths % 10 > 0 ==> seconds_text(1000 * s + thousandths) == text::dec(s) + "."@
            + text::dec_padded(thousandths, 3),
{
}

/// How a stopped instance is judged: by a new owner before anything else, then by work that
/// was not published, then by how the owner ended that was waited for, and where none was
/// by what is on record.
pub proof fn lemma_how_a_stop_is_judged(
    layout: paths::Layout,
    new_owner: bool,
    work_active: bool,
    expected_pid: Option<i32>,
    recorded: Result<Option<FinalSnapshotOutcome>, OutcomeReadError>,
    r: ShutdownCheck,
)
    requires
        is_shutdown_check(layout, new_owner, work_active, expected_pid, recorded, r),
    ensures
        r is NewOwner <==> new_owner,
        r is Unpublished <==> !new_owner && work_active,
        r is BadPid <==> !new_owner && !work_active && (expected_pid matches Some(pid) && pid < 0),
        r is Ended <==> !new_owner && !work_active && (expected_pid matches Some(pid) && pid >= 0),
        r is Unreadable <==> !new_owner && !work_active && expected_pid is None && recorded is Err,
        r is Free <==> !new_owner && !work_active && expected_pid is None && (recorded matches Ok(o)
            && (o matches Some(x) ==> x.succeeded && !x.pending)),
        r is Blocked <==> !new_owner && !work_active && expected_pid is None && (
        recorded matches Ok(o) && (o matches Some(x) && (x.pending || !x.succeeded))),
        r matches ShutdownCheck::Unpublished { work } ==> work@ == paths::joined(
            layout.snapshot_dir@,
            ".restore-work"@,
        ),
        r matches ShutdownCheck::Ended(s) ==> (s is Fine <==> (recorded matches Ok(Some(o))
            && o.succeeded && !o.pending && Some(o.pid as int) == (match expected_pid {
            Some(pid) => Some(pid as int),
            None => None,
        }))),
        r matches ShutdownCheck::Blocked(e) ==> (recorded matches Ok(Some(o)) && match e {
            OutcomeError::Unfinished { instance, pid } => o.pending && pid == o.pid && instance@
                == layout.instance@,
            OutcomeError::Failed { instance, pid, error } => !o.pending && pid == o.pid
                && instance@ == layout.instance@,
            _ => false,
        }),
{
}

/// A stop that failed names its instance, the owner that was left running or took over,
/// and, where it waited in vain, how long it waited.
#[verifier::spinoff_prover]
#[verifier::rlimit(40)]
pub proof fn lemma_failed_stops_say_what_happened(
    failure: StopFailure,
    instance: Seq<char>,
    lock_dir: Seq<char>,
    timeout_ms: u64,
)
    ensures
        ({
            let said = stop_failure_text(failure, instance, lock_dir, timeout_ms);
            &&& text::holds(said, instance)
            &&& !(failure is OwnerChanged) ==> text::holds(
                said,
                seconds_text(timeout_ms as nat) + " seconds"@,
            )
            &&& failure is IncompleteLease ==> text::holds(said, lock_dir)
            &&& failure matches StopFailure::OwnerChanged { pid, current } ==> text::holds(
                said,
                "from pid "@ + text::dec_signed(pid as int) + " to pid "@ + text::dec_signed(
                    current as int,
                ),
            )
            &&& failure matches StopFailure::LeftRunning { pid } ==> text::holds(
                said,
                "owner process "@ + text::dec_signed(pid as int),
            )
        }),
{
    let secs = seconds_text(timeout_ms as nat);
    let said = stop_failure_text(failure, instance, lock_dir, timeout_ms);
    let wait = secs + " seconds"@;
    lemma_stop_words();
    match failure {
        StopFailure::StillStarting => {
            let (a, b) = ("instance "@, " did not finish starting within "@);
            let c = "; retry stop"@;
            assert(said =~= a + instance + (b + wait + c));
            text::lemma_held(a, instance, b + wait + c);
            assert(said =~= (a + instance + b) + wait + c);
            text::lemma_held(a + instance + b, wait, c);
        },
        StopFailure::StillCopying => {
            let (a, b) = ("instance "@, " state copy did not finish within "@);
            let c = "; retry stop"@;
            assert(said =~= a + instance + (b + wait + c));
            text::lemma_held(a, instance, b + wait + c);
            assert(said =~= (a + instance + b) + wait + c);
            text::lemma_held(a + instance + b, wait, c);
        },
        StopFailure::IncompleteLease => {
            let (a, b, c) = ("instance "@, " owner lease remained incomplete at "@, " for "@);
            let d = "; run lnx --instance "@ + instance
                + " snapshots clear to acknowledge and explicitly cold-boot"@;
            assert(said =~= a + instance + (b + lock_dir + c + wait + d));
            text::lemma_held(a, instance, b + lock_dir + c + wait + d);
            assert(said =~= (a + instance + b) + lock_dir + (c + wait + d));
            text::lemma_held(a + instance + b, lock_dir, c + wait + d);
            assert(said =~= (a + instance + b + lock_dir + c) + wait + d);
            text::lemma_held(a + instance + b + lock_dir + c, wait, d);
        },
        StopFailure::OwnerChanged { pid, current } => {
            let (a, b, c) = ("instance "@, " changed VM owner "@, " while stopping"@);
            let change = "from pid "@ + text::dec_signed(pid as int) + " to pid "@
                + text::dec_signed(current as int);
            assert(said =~= a + instance + (b + change + c));
            text::lemma_held(a, instance, b + change + c);
            assert(said =~= (a + instance + b) + change + c);
            text::lemma_held(a + instance + b, change, c);
        },
        StopFailure::LeftRunning { pid } => {
            let a = "owner process "@ + text::dec_signed(pid as int);
            let (b, c) = (" for instance "@, " did not finish its shutdown snapshot within "@);
            let d = "; it was left running so recoverable state is not discarded"@;
            let none = Seq::<char>::empty();
            assert(said =~= none + a + (b + instance + c + wait + d));
            text::lemma_held(none, a, b + instance + c + wait + d);
            assert(said =~= (a + b) + instance + (c + wait + d));
            text::lemma_held(a + b, instance, c + wait + d);
            assert(said =~= (a + b + instance + c) + wait + d);
            text::lemma_held(a + b + instance + c, wait, d);
        },
    }
}

#[verifier::spinoff_prover]
#[verifier::rlimit(40)]
proof fn lemma_stop_words()
    ensures
        " seconds; retry stop"@ == " seconds"@ + "; retry stop"@,
        " seconds; run lnx --instance "@ == " seconds"@ + "; run lnx --instance "@,
        " changed VM owner from pid "@ == " changed VM owner "@ + "from pid "@,
        " seconds; it was left running so recoverable state is not discarded"@ == " seconds"@
            + "; it was left running so recoverable state is not discarded"@,
{
    assert(" seconds; retry stop"@ =~= " seconds"@ + "; retry stop"@) by {
        reveal_strlit(" seconds; retry stop");
        reveal_strlit(" seconds");
        reveal_strlit("; retry stop");
    }
    assert(" seconds; run lnx --instance "@ =~= " seconds"@ + "; run lnx --instance "@) by {
        reveal_strlit(" seconds; run lnx --instance ");
        reveal_strlit(" seconds");
        reveal_strlit("; run lnx --instance ");
    }
    assert(" changed VM owner from pid "@ =~= " changed VM owner "@ + "from pid "@) by {
        reveal_strlit(" changed VM owner from pid ");
        reveal_strlit(" changed VM owner ");
        reveal_strlit("from pid ");
    }
    assert(" seconds; it was left running so recoverable state is not discarded"@ =~= " seconds"@
        + "; it was left running so recoverable state is not discarded"@) by {
        reveal_strlit(" seconds; it was left running so recoverable state is not discarded");
        reveal_strlit(" seconds");
        reveal_strlit("; it was left running so recoverable state is not discarded");
    }
}

} // verus!
