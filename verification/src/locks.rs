//! Directory locks: who holds one, when it is stale, and who may take or release it.
//!
//! Every decision is made while the lock's guard file is locked, so that what was
//! observed still holds when it is acted on.
use vstd::prelude::*;

use crate::logs;
use crate::paths;
use crate::stamps::FileText;
use crate::text;

verus! {

/// How old a lock without a readable holder must be before it counts as stale, in
/// milliseconds.
pub const UNHELD_LOCK_GRACE_MS: u64 = 10000;

/// What asking the operating system about a process gave.
#[derive(Clone, Copy, PartialEq, Eq, Structural, Debug)]
pub enum ProcessProbe {
    /// It can be signalled.
    Reached,
    /// It is there, but belongs to somebody else.
    NotPermitted,
    /// There is no such process.
    Gone,
}

/// Whether a process is alive; no process has a number below one.
pub fn process_alive(pid: i32, probe: ProcessProbe) -> (r: bool)
    ensures
        r == (pid > 0 && probe != ProcessProbe::Gone),
{
    pid > 0 && match probe {
        ProcessProbe::Gone => false,
        _ => true,
    }
}

// ---------------------------------------------------------------------------
// Who holds a lock
// ---------------------------------------------------------------------------

/// Why the process that a lock records cannot be told.
#[derive(Debug, PartialEq, Eq)]
pub enum PidError {
    Unreadable { path: String, error: String },
    Unparsable { path: String },
    Invalid { what: &'static str, pid: i32, path: String },
}

impl PidError {
    /// The message shown to the user.
    pub open spec fn text(self) -> Seq<char> {
        match self {
            PidError::Unreadable { path, error } => "read "@ + path@ + ": "@ + error@,
            PidError::Unparsable { path } => "parse "@ + path@,
            PidError::Invalid { what, pid, path } => "invalid "@ + what@ + " pid "@
                + text::dec_signed(pid as int) + " in "@ + path@,
        }
    }

    /// The message shown to the user.
    pub fn message(&self) -> (m: String)
        ensures
            m@ == self.text(),
    {
        match self {
            PidError::Unreadable { path, error } => {
                let mut m: String = "read ".to_owned();
                m.append(path.as_str());
                m.append(": ");
                m.append(error.as_str());
                m
            },
            PidError::Unparsable { path } => {
                let mut m: String = "parse ".to_owned();
                m.append(path.as_str());
                m
            },
            PidError::Invalid { what, pid, path } => {
                let mut m: String = "invalid ".to_owned();
                m.append(what);
                m.append(" pid ");
                m.append(text::decimal_signed(*pid as i64).as_str());
                m.append(" in ");
                m.append(path.as_str());
                m
            },
        }
    }
}

/// The process id that a text records.
pub open spec fn pid_in(raw: Seq<char>) -> Option<int> {
    text::parsed_i32(text::trimmed(raw))
}

/// What a pid file says: nobody when there is none, and a process number above zero
/// otherwise.
pub open spec fn is_recorded_pid(
    file: FileText,
    what: Seq<char>,
    path: Seq<char>,
    r: Result<Option<i32>, PidError>,
) -> bool {
    match file {
        FileText::Missing => r == Ok::<Option<i32>, PidError>(None),
        FileText::Failed(error) => r matches Err(PidError::Unreadable { path: p, error: e }) && p@
            == path && e@ == error@,
        FileText::Found(raw) => match pid_in(raw@) {
            None => r matches Err(PidError::Unparsable { path: p }) && p@ == path,
            Some(pid) => if pid > 0 {
                r matches Ok(Some(n)) && n == pid
            } else {
                r matches Err(PidError::Invalid { what: w, pid: n, path: p }) && w@ == what && n
                    == pid && p@ == path
            },
        },
    }
}

fn recorded_pid(file: &FileText, what: &'static str, path: String) -> (r: Result<
    Option<i32>,
    PidError,
>)
    ensures
        is_recorded_pid(*file, what@, path@, r),
{
    match file {
        FileText::Missing => Ok(None),
        FileText::Failed(error) => Err(PidError::Unreadable { path, error: error.clone() }),
        FileText::Found(raw) => match text::parse_i32(text::trim(raw.as_str())) {
            None => Err(PidError::Unparsable { path }),
            Some(pid) => {
                if pid > 0 {
                    Ok(Some(pid))
                } else {
                    Err(PidError::Invalid { what, pid, path })
                }
            },
        },
    }
}

/// The VM owner that a lock records in `owner.pid`.
pub fn recorded_owner_pid_from_lock(lock_path: &str, file: &FileText) -> (r: Result<
    Option<i32>,
    PidError,
>)
    ensures
        is_recorded_pid(*file, "owner"@, paths::joined(lock_path@, "owner.pid"@), r),
{
    recorded_pid(file, "owner", paths::join(lock_path, "owner.pid"))
}

/// The process copying the instance's state that a lock records in `maintenance.pid`.
pub fn recorded_maintenance_pid_from_lock(lock_path: &str, file: &FileText) -> (r: Result<
    Option<i32>,
    PidError,
>)
    ensures
        is_recorded_pid(*file, "maintenance"@, paths::joined(lock_path@, "maintenance.pid"@), r),
{
    recorded_pid(file, "maintenance", paths::join(lock_path, "maintenance.pid"))
}

/// The live owner of a lock: the one that it records, if that is a live process.
/// `probe` is what the operating system says of the recorded process.
pub fn owner_pid_from_lock(file: &FileText, probe: ProcessProbe) -> (r: Option<i32>)
    ensures
        match r {
            Some(n) => *file matches FileText::Found(raw) && pid_in(raw@) == Some(n as int) && n > 0
                && probe != ProcessProbe::Gone,
            None => !(*file matches FileText::Found(raw) && pid_in(raw@) is Some && pid_in(
                raw@,
            )->Some_0 > 0 && probe != ProcessProbe::Gone),
        },
{
    match file {
        FileText::Found(raw) => match text::parse_i32(text::trim(raw.as_str())) {
            Some(pid) => {
                if process_alive(pid, probe) {
                    Some(pid)
                } else {
                    None
                }
            },
            None => None,
        },
        _ => None,
    }
}

// ---------------------------------------------------------------------------
// When a lock is stale
// ---------------------------------------------------------------------------

/// What the files of a lock say about its holder.
#[derive(Clone, Copy, PartialEq, Eq, Structural, Debug)]
pub enum LeaseHolder {
    /// This process: the lock is stale once it is gone.
    Process(i32),
    /// A holder that cannot be told: stale.
    Garbled,
    /// No holder is recorded yet: stale once it is old enough.
    Unrecorded,
}

/// What the first readable of a lock's pid files says.
pub open spec fn holder_of(files: Seq<FileText>) -> LeaseHolder
    decreases files.len(),
{
    if files.len() == 0 {
        LeaseHolder::Unrecorded
    } else {
        match files[0] {
            FileText::Found(raw) => match pid_in(raw@) {
                Some(pid) => LeaseHolder::Process(pid as i32),
                None => LeaseHolder::Garbled,
            },
            _ => holder_of(files.skip(1)),
        }
    }
}

fn holder_in(file: &FileText) -> (r: Option<LeaseHolder>)
    ensures
        match *file {
            FileText::Found(raw) => r == Some(
                match pid_in(raw@) {
                    Some(pid) => LeaseHolder::Process(pid as i32),
                    None => LeaseHolder::Garbled,
                },
            ),
            _ => r is None,
        },
{
    match file {
        FileText::Found(raw) => match text::parse_i32(text::trim(raw.as_str())) {
            Some(pid) => Some(LeaseHolder::Process(pid)),
            None => Some(LeaseHolder::Garbled),
        },
        _ => None,
    }
}

/// Who holds a bootstrap lock: its VM owner, or else the process copying its state.
pub fn bootstrap_lock_holder(owner: &FileText, maintenance: &FileText) -> (r: LeaseHolder)
    ensures
        r == holder_of(seq![*owner, *maintenance]),
{
    proof {
        reveal_with_fuel(holder_of, 3);
        assert(seq![*owner, *maintenance].skip(1)[0] == *maintenance);
        assert(seq![*owner, *maintenance].skip(1).skip(1).len() == 0);
    }
    match holder_in(owner) {
        Some(holder) => holder,
        None => match holder_in(maintenance) {
            Some(holder) => holder,
            None => LeaseHolder::Unrecorded,
        },
    }
}

/// Who holds an owner-start lock: the process starting an owner.
pub fn owner_start_lock_holder(starter: &FileText) -> (r: LeaseHolder)
    ensures
        r == holder_of(seq![*starter]),
{
    proof {
        reveal_with_fuel(holder_of, 2);
        assert(seq![*starter].skip(1).len() == 0);
    }
    match holder_in(starter) {
        Some(holder) => holder,
        None => LeaseHolder::Unrecorded,
    }
}

/// Whether a lock is stale. `probe` is what the operating system says of its holder, and
/// `age_ms` how long ago the lock was made.
pub open spec fn is_stale(holder: LeaseHolder, probe: ProcessProbe, age_ms: u64) -> bool {
    match holder {
        LeaseHolder::Process(pid) => !(pid > 0 && probe != ProcessProbe::Gone),
        LeaseHolder::Garbled => true,
        LeaseHolder::Unrecorded => age_ms > UNHELD_LOCK_GRACE_MS,
    }
}

/// Whether a lock is stale.
pub fn lock_is_stale(holder: LeaseHolder, probe: ProcessProbe, age_ms: u64) -> (r: bool)
    ensures
        r == is_stale(holder, probe, age_ms),
{
    match holder {
        LeaseHolder::Process(pid) => !process_alive(pid, probe),
        LeaseHolder::Garbled => true,
        LeaseHolder::Unrecorded => age_ms > UNHELD_LOCK_GRACE_MS,
    }
}

/// Whether a bootstrap lock is stale.
pub fn bootstrap_lock_is_stale(
    owner: &FileText,
    maintenance: &FileText,
    probe: ProcessProbe,
    age_ms: u64,
) -> (r: bool)
    ensures
        r == is_stale(holder_of(seq![*owner, *maintenance]), probe, age_ms),
{
    lock_is_stale(bootstrap_lock_holder(owner, maintenance), probe, age_ms)
}

/// Whether an owner-start lock is stale.
pub fn owner_start_lock_is_stale(starter: &FileText, probe: ProcessProbe, age_ms: u64) -> (r: bool)
    ensures
        r == is_stale(holder_of(seq![*starter]), probe, age_ms),
{
    lock_is_stale(owner_start_lock_holder(starter), probe, age_ms)
}

// ---------------------------------------------------------------------------
// Taking and releasing a lock
// ---------------------------------------------------------------------------

/// How a process goes about a lock.
#[derive(Clone, Copy, PartialEq, Eq, Structural, Debug)]
pub enum Acquire {
    /// Somebody holds it.
    Busy,
    /// Nobody holds it: check what has to hold, then take it. A stale lock directory is
    /// removed first.
    Take { remove_stale: bool },
}

/// Whether a lock can be taken: only a live lock keeps others out. `stale` counts only
/// for a lock that is there.
pub fn acquire_decision(present: bool, stale: bool) -> (r: Acquire)
    ensures
        r == (if present && !stale {
            Acquire::Busy
        } else {
            Acquire::Take { remove_stale: present }
        }),
{
    if present && !stale {
        Acquire::Busy
    } else {
        Acquire::Take { remove_stale: present }
    }
}

/// Whether a lock directory is removed without being taken: only one that is there and
/// stale under the guard.
pub fn remove_stale_decision(present: bool, stale: bool) -> (r: bool)
    ensures
        r == (present && stale),
{
    present && stale
}

/// Whether a process releases a lock: only one that records it as the holder.
pub fn release_decision(recorded: &FileText, own_pid: i32) -> (r: bool)
    ensures
        r == (*recorded matches FileText::Found(raw) && pid_in(raw@) == Some(own_pid as int)),
{
    match recorded {
        FileText::Found(raw) => match text::parse_i32(text::trim(raw.as_str())) {
            Some(pid) => pid == own_pid,
            None => false,
        },
        _ => false,
    }
}

/// A lock that processes contend for: who holds it, and which processes are alive.
pub struct Contended {
    pub holder: Option<int>,
    pub alive: Set<int>,
}

/// One attempt to take the lock: it succeeds exactly when the lock is free or its holder
/// is gone.
pub open spec fn attempt(lock: Contended, pid: int) -> (Contended, bool) {
    match lock.holder {
        Some(holder) if lock.alive.contains(holder) => (lock, false),
        _ => (Contended { holder: Some(pid), alive: lock.alive }, true),
    }
}

/// The processes that succeed, of several that try one after the other.
pub open spec fn winners(lock: Contended, pids: Seq<int>) -> Seq<int>
    decreases pids.len(),
{
    if pids.len() == 0 {
        Seq::empty()
    } else {
        let (next, won) = attempt(lock, pids[0]);
        let rest = winners(next, pids.skip(1));
        if won {
            seq![pids[0]] + rest
        } else {
            rest
        }
    }
}

proof fn lemma_held_lock_has_no_winner(lock: Contended, pids: Seq<int>)
    requires
        lock.holder matches Some(holder) && lock.alive.contains(holder),
    ensures
        winners(lock, pids) == Seq::<int>::empty(),
    decreases pids.len(),
{
    if pids.len() > 0 {
        lemma_held_lock_has_no_winner(lock, pids.skip(1));
    }
}

/// However many live processes try to reclaim a free or stale lock, exactly one of them
/// gets it: the first.
pub proof fn lemma_reclaim_has_a_single_winner(lock: Contended, pids: Seq<int>)
    requires
        pids.len() > 0,
        lock.holder matches Some(holder) ==> !lock.alive.contains(holder),
        forall|i: int| 0 <= i < pids.len() ==> lock.alive.contains(#[trigger] pids[i]),
    ensures
        winners(lock, pids) == seq![pids[0]],
{
    let (next, won) = attempt(lock, pids[0]);
    assert(won);
    assert(lock.alive.contains(pids[0]));
    lemma_held_lock_has_no_winner(next, pids.skip(1));
    assert(winners(lock, pids) =~= seq![pids[0]]);
}

/// A decision to take a lock is an attempt that succeeds: the lock directory stands for a
/// holder, and it is stale when the holder is gone.
pub proof fn lemma_acquire_is_an_attempt(lock: Contended, pid: int, present: bool, stale: bool)
    requires
        present <==> lock.holder is Some,
        lock.holder matches Some(holder) ==> (stale <==> !lock.alive.contains(holder)),
    ensures
        attempt(lock, pid).1 <==> !(present && !stale),
        attempt(lock, pid).1 ==> attempt(lock, pid).0.holder == Some(pid),
{
}

/// The file whose lock guards a lock directory: beside it, with `.guard` after its name. For
/// a path that does not end in a name, it is `.guard` below that path.
pub open spec fn guard_path(path: Seq<char>) -> Seq<char> {
    match paths::name_of(path) {
        Some(name) => paths::joined(
            match paths::parent_of(path) {
                Some(dir) => dir,
                None => Seq::empty(),
            },
            name + ".guard"@,
        ),
        None => paths::joined(path, ".guard"@),
    }
}

/// The file whose lock guards a lock directory.
pub fn lock_dir_guard_path(path: &str) -> (r: String)
    ensures
        r@ == guard_path(path@),
{
    let mut name: String = match paths::file_name(path) {
        Some(name) => name,
        None => return paths::join(path, ".guard"),
    };
    name.append(".guard");
    let dir: String = match paths::parent(path) {
        Some(dir) => dir,
        None => String::new(),
    };
    paths::join(dir.as_str(), name.as_str())
}

/// The text of an owner's lease.
pub open spec fn lease_text(
    pid: u32,
    protocol_version: u16,
    agent_source_stamp: Seq<char>,
    binary_path: Seq<char>,
) -> Seq<char> {
    "{\"pid\":"@ + text::dec(pid as nat) + ",\"protocol_version\":"@ + text::dec(
        protocol_version as nat,
    ) + ",\"agent_source_stamp\":\""@ + logs::json_escaped(agent_source_stamp)
        + "\",\"binary_path\":\""@ + logs::json_escaped(binary_path) + "\"}\n"@
}

/// Writes an owner's lease.
pub fn owner_lease(pid: u32, protocol_version: u16, agent_source_stamp: &str, binary_path: &str)
    -> (s: String)
    ensures
        s@ == lease_text(pid, protocol_version, agent_source_stamp@, binary_path@),
{
    let mut s: String = "{\"pid\":".to_owned();
    text::push_dec(&mut s, pid as u128);
    s.append(",\"protocol_version\":");
    text::push_dec(&mut s, protocol_version as u128);
    s.append(",\"agent_source_stamp\":\"");
    s.append(logs::json_escape(agent_source_stamp).as_str());
    s.append("\",\"binary_path\":\"");
    s.append(logs::json_escape(binary_path).as_str());
    s.append("\"}\n");
    s
}

// ---------------------------------------------------------------------------
// Signals
// ---------------------------------------------------------------------------

/// What sending a signal gave.
#[derive(Clone, Copy, PartialEq, Eq, Structural, Debug)]
pub enum SignalResult {
    Delivered,
    /// There is no such process.
    NoSuchProcess,
    Failed,
}

/// What to signal next.
#[derive(Clone, Copy, PartialEq, Eq, Structural, Debug)]
pub enum SignalStep {
    /// The process group of this process.
    Group(i32),
    /// The process itself.
    Process(i32),
    Done,
    /// Fail with the error of the first attempt.
    Fail,
    /// No process has this number.
    InvalidPid,
}

/// Signals a process group, and the process alone where that fails. `group` and
/// `process` are what came of the attempts so far.
pub fn signal_group_step(
    pid: i32,
    group: Option<SignalResult>,
    process: Option<SignalResult>,
) -> (r: SignalStep)
    ensures
        r == (if pid <= 0 {
            SignalStep::InvalidPid
        } else {
            match group {
                None => SignalStep::Group(pid),
                Some(SignalResult::Delivered) => SignalStep::Done,
                Some(_) => match process {
                    None => SignalStep::Process(pid),
                    Some(SignalResult::Failed) => SignalStep::Fail,
                    Some(_) => SignalStep::Done,
                },
            }
        }),
        r is InvalidPid <==> pid <= 0,
        r matches SignalStep::Group(p) ==> p == pid && group is None,
        r matches SignalStep::Process(p) ==> p == pid && group is Some && process is None,
        r is Done ==> group == Some(SignalResult::Delivered) || process == Some(
            SignalResult::Delivered,
        ) || process == Some(SignalResult::NoSuchProcess),
        r is Fail ==> process == Some(SignalResult::Failed),
{
    if pid <= 0 {
        return SignalStep::InvalidPid;
    }
    match group {
        None => SignalStep::Group(pid),
        Some(SignalResult::Delivered) => SignalStep::Done,
        Some(_) => match process {
            None => SignalStep::Process(pid),
            Some(SignalResult::Failed) => SignalStep::Fail,
            Some(_) => SignalStep::Done,
        },
    }
}

/// Signals one process. A process that is gone needs no signal.
pub fn signal_process_step(pid: i32, process: Option<SignalResult>) -> (r: SignalStep)
    ensures
        r == (if pid <= 0 {
            SignalStep::InvalidPid
        } else {
            match process {
                None => SignalStep::Process(pid),
                Some(SignalResult::Failed) => SignalStep::Fail,
                Some(_) => SignalStep::Done,
            }
        }),
        r is InvalidPid <==> pid <= 0,
        r is Process <==> pid > 0 && process is None,
        r is Fail <==> pid > 0 && process == Some(SignalResult::Failed),
{
    if pid <= 0 {
        return SignalStep::InvalidPid;
    }
    match process {
        None => SignalStep::Process(pid),
        Some(SignalResult::Failed) => SignalStep::Fail,
        Some(_) => SignalStep::Done,
    }
}

// ---------------------------------------------------------------------------
// Waiting for a lock
// ---------------------------------------------------------------------------

/// How long a process waits for a lock, in milliseconds.
pub const LOCK_WAIT_MS: u64 = 120000;

/// How long a fresh owner waits for its predecessor to go, in milliseconds.
pub const FRESH_OWNER_SLOT_MS: u64 = 30000;

/// How far waiting for a lock has come.
#[derive(Debug, PartialEq, Eq)]
pub enum AwaitLock {
    /// The lock was taken.
    Locked,
    /// A running owner served the command meanwhile: leave with its status.
    Served(i32),
    /// Try again after a moment.
    Retry,
    TimedOut,
}

/// One round of waiting for a lock. `acquired` is whether it could be taken; if not, and
/// the client may be served by a running owner, `served` is the status of that.
pub fn await_lock_step(acquired: bool, served: Option<i32>, elapsed_ms: u64) -> (r: AwaitLock)
    ensures
        r == (if acquired {
            AwaitLock::Locked
        } else {
            match served {
                Some(status) => AwaitLock::Served(status),
                None => if elapsed_ms > LOCK_WAIT_MS {
                    AwaitLock::TimedOut
                } else {
                    AwaitLock::Retry
                },
            }
        }),
        r is Locked <==> acquired,
        r matches AwaitLock::Served(status) ==> served == Some(status),
        r is Served <==> !acquired && served is Some,
        r is TimedOut <==> !acquired && served is None && elapsed_ms > 120000,
{
    if acquired {
        return AwaitLock::Locked;
    }
    match served {
        Some(status) => AwaitLock::Served(status),
        None => if elapsed_ms > LOCK_WAIT_MS {
            AwaitLock::TimedOut
        } else {
            AwaitLock::Retry
        },
    }
}

/// How long a process waits for the guard of a lock directory, in milliseconds.
pub const GUARD_WAIT_MS: u64 = 5000;

/// What came of an attempt to lock the guard of a lock directory.
#[derive(Clone, Copy, PartialEq, Eq, Structural, Debug)]
pub enum GuardTry {
    Locked,
    Interrupted,
    /// Another process has it.
    WouldBlock,
    Failed,
}

/// What is done after an attempt to lock the guard of a lock directory.
#[derive(Clone, Copy, PartialEq, Eq, Structural, Debug)]
pub enum GuardStep {
    Locked,
    /// Try again at once.
    Again,
    /// Try again after a moment.
    Sleep,
    Fail,
}

/// What is done after an attempt to lock the guard of a lock directory.
pub fn guard_step(seen: GuardTry) -> (r: GuardStep)
    ensures
        r == (match seen {
            GuardTry::Locked => GuardStep::Locked,
            GuardTry::Interrupted => GuardStep::Again,
            GuardTry::WouldBlock => GuardStep::Sleep,
            GuardTry::Failed => GuardStep::Fail,
        }),
{
    match seen {
        GuardTry::Locked => GuardStep::Locked,
        GuardTry::Interrupted => GuardStep::Again,
        GuardTry::WouldBlock => GuardStep::Sleep,
        GuardTry::Failed => GuardStep::Fail,
    }
}

/// How far waiting for the slot of a fresh owner has come.
#[derive(Clone, Copy, PartialEq, Eq, Structural, Debug)]
pub enum OwnerSlot {
    /// Nobody holds the lock. A stale lock directory stays where it is until it is
    /// replaced, so that there is never a gap without one.
    Free,
    /// The owner with this number held the lock and has ended. The slot is free if it ended
    /// well; the stale lock directory stays where it is as well.
    Ended(u32),
    /// Look again after a moment.
    Wait,
    TimedOut,
}

/// One look at the slot of a fresh owner. `recorded` is the owner that the lock records.
pub fn owner_slot_step(present: bool, stale: bool, recorded: Option<i32>, elapsed_ms: u64) -> (r:
    OwnerSlot)
    ensures
        r == (if !present {
            OwnerSlot::Free
        } else if stale {
            match recorded {
                Some(pid) => if pid > 0 {
                    OwnerSlot::Ended(pid as u32)
                } else {
                    OwnerSlot::Free
                },
                None => OwnerSlot::Free,
            }
        } else if elapsed_ms > FRESH_OWNER_SLOT_MS {
            OwnerSlot::TimedOut
        } else {
            OwnerSlot::Wait
        }),
        r is Free <==> !present || (stale && !(recorded matches Some(pid) && pid > 0)),
        r matches OwnerSlot::Ended(pid) ==> recorded matches Some(n) && n == pid,
        r is Ended <==> present && stale && (recorded matches Some(pid) && pid > 0),
        r is Wait <==> present && !stale && elapsed_ms <= 30000,
        r is TimedOut <==> present && !stale && elapsed_ms > 30000,
{
    if !present {
        OwnerSlot::Free
    } else if stale {
        match recorded {
            Some(pid) => if pid > 0 {
                OwnerSlot::Ended(pid as u32)
            } else {
                OwnerSlot::Free
            },
            None => OwnerSlot::Free,
        }
    } else if elapsed_ms > FRESH_OWNER_SLOT_MS {
        OwnerSlot::TimedOut
    } else {
        OwnerSlot::Wait
    }
}

// ---------------------------------------------------------------------------
// Replacing an owner
// ---------------------------------------------------------------------------

/// How long an owner that is replaced may take to end, in milliseconds.
pub const OWNER_REPLACE_GRACE_MS: u64 = 5000;

/// How long a killed owner may still be seen, in milliseconds.
pub const OWNER_KILL_GRACE_MS: u64 = 2000;

/// How far replacing an owner has come. Times are milliseconds of one clock.
#[derive(Clone, Copy, PartialEq, Eq, Structural, Debug)]
pub enum Replacing {
    Begin,
    /// The owner was asked to end.
    Terminating { pid: i32, deadline: u64 },
    /// The owner was killed.
    Killing { pid: i32, deadline: u64 },
    Done,
}

/// What to do about the owner that is replaced.
#[derive(Clone, Copy, PartialEq, Eq, Structural, Debug)]
pub enum ReplaceAction {
    /// Ask its process group to end.
    Terminate(i32),
    /// Kill its process group.
    Kill(i32),
    /// Look again after a moment.
    Wait,
    /// It is gone: remove its lock directory, if `lock` says so, and its socket.
    Clean { lock: bool },
    /// Nothing is left to do.
    Finished,
}

/// What is seen of the owner that is replaced.
#[derive(Clone, Copy, PartialEq, Eq, Structural)]
pub struct ReplaceView {
    /// The live process that the lock records; looked at in the beginning.
    pub owner: Option<i32>,
    /// Whether the lock is stale; looked at in the beginning.
    pub stale: bool,
    /// Whether the process that is replaced is alive; looked at later.
    pub alive: bool,
    pub now: u64,
}

/// What to do about the owner that is replaced, and how far it has come then.
pub open spec fn replace_response(state: Replacing, seen: ReplaceView) -> (ReplaceAction, Replacing) {
    match state {
        Replacing::Begin => match seen.owner {
            None => (ReplaceAction::Clean { lock: seen.stale }, Replacing::Done),
            Some(pid) => (
                ReplaceAction::Terminate(pid),
                Replacing::Terminating {
                    pid,
                    deadline: (seen.now + OWNER_REPLACE_GRACE_MS) as u64,
                },
            ),
        },
        Replacing::Terminating { pid, deadline } => if seen.now >= deadline {
            (
                ReplaceAction::Kill(pid),
                Replacing::Killing { pid, deadline: (seen.now + OWNER_KILL_GRACE_MS) as u64 },
            )
        } else if seen.alive {
            (ReplaceAction::Wait, state)
        } else {
            (ReplaceAction::Clean { lock: true }, Replacing::Done)
        },
        Replacing::Killing { pid, deadline } => if seen.alive && seen.now < deadline {
            (ReplaceAction::Wait, state)
        } else {
            (ReplaceAction::Clean { lock: true }, Replacing::Done)
        },
        Replacing::Done => (ReplaceAction::Finished, Replacing::Done),
    }
}

/// One step of replacing an owner.
pub fn replace_step(state: Replacing, seen: ReplaceView) -> (r: (ReplaceAction, Replacing))
    requires
        seen.now <= u64::MAX - OWNER_REPLACE_GRACE_MS,
    ensures
        r == replace_response(state, seen),
{
    match state {
        Replacing::Begin => match seen.owner {
            None => (ReplaceAction::Clean { lock: seen.stale }, Replacing::Done),
            Some(pid) => (
                ReplaceAction::Terminate(pid),
                Replacing::Terminating { pid, deadline: seen.now + OWNER_REPLACE_GRACE_MS },
            ),
        },
        Replacing::Terminating { pid, deadline } => {
            if seen.now >= deadline {
                (
                    ReplaceAction::Kill(pid),
                    Replacing::Killing { pid, deadline: seen.now + OWNER_KILL_GRACE_MS },
                )
            } else if seen.alive {
                (ReplaceAction::Wait, Replacing::Terminating { pid, deadline })
            } else {
                (ReplaceAction::Clean { lock: true }, Replacing::Done)
            }
        },
        Replacing::Killing { pid, deadline } => {
            if seen.alive && seen.now < deadline {
                (ReplaceAction::Wait, Replacing::Killing { pid, deadline })
            } else {
                (ReplaceAction::Clean { lock: true }, Replacing::Done)
            }
        },
        Replacing::Done => (ReplaceAction::Finished, Replacing::Done),
    }
}

/// An owner is killed only after it was asked to end and its grace period is over.
pub proof fn lemma_kill_follows_grace(state: Replacing, seen: ReplaceView)
    ensures
        replace_response(state, seen).0 is Kill ==> (state matches Replacing::Terminating {
            pid,
            deadline,
        } && seen.now >= deadline && replace_response(state, seen).0 == ReplaceAction::Kill(pid)),
{
}

// ---------------------------------------------------------------------------
// Laws of locks
// ---------------------------------------------------------------------------

/// A process number that was written to a lock is read back, with or without an end of
/// line behind it.
pub proof fn lemma_pid_round_trip(pid: i32)
    ensures
        pid_in(text::dec_signed(pid as int)) == Some(pid as int),
        pid_in(text::dec_signed(pid as int) + seq!['\n']) == Some(pid as int),
{
    let t = text::dec_signed(pid as int);
    let whole = t + seq!['\n'];
    text::lemma_signed_round_trip(pid as int);
    if pid < 0 {
        text::lemma_dec_round_trip((-pid) as nat);
        let d = text::dec((-pid) as nat);
        assert(text::is_digit(d[d.len() - 1]));
        assert(t.last() == d[d.len() - 1]);
    } else {
        text::lemma_dec_round_trip(pid as nat);
        assert(text::is_digit(t[0]));
        assert(text::is_digit(t[t.len() - 1]));
    }
    assert(!text::is_space(t[0]) && !text::is_space(t.last()));
    assert(text::trimmed(t) == t);
    assert(whole[0] == t[0]);
    assert(whole.drop_last() =~= t);
    assert(text::trimmed_end(t) == t);
    assert(text::trimmed(whole) == t);
}

/// What is recorded in a lock: a process where its file names one, nobody where there is
/// no file, and an error for anything else.
pub proof fn lemma_recorded_pid(
    file: FileText,
    what: Seq<char>,
    path: Seq<char>,
    r: Result<Option<i32>, PidError>,
)
    requires
        is_recorded_pid(file, what, path, r),
    ensures
        r matches Ok(None) <==> file is Missing,
        r matches Ok(Some(n)) ==> n > 0 && (file matches FileText::Found(raw) && pid_in(raw@)
            == Some(n as int)),
        (file matches FileText::Found(raw) && (pid_in(raw@) matches Some(n) && n > 0)) ==> r is Ok,
        r is Err <==> file is Failed || (file matches FileText::Found(raw) && !(pid_in(
            raw@,
        ) matches Some(n) && n > 0)),
{
}

/// The holder of a lock is told by the first of its files that is there.
pub proof fn lemma_holder_of(a: Seq<FileText>, b: Seq<FileText>, file: FileText)
    ensures
        (forall|i: int| 0 <= i < a.len() ==> !(#[trigger] a[i] is Found)) ==> holder_of(a + b)
            == holder_of(b),
        (exists|i: int| 0 <= i < a.len() && #[trigger] a[i] is Found) ==> holder_of(a + b)
            == holder_of(a),
        file is Missing || file is Failed ==> holder_of(seq![file]) is Unrecorded,
        (file matches FileText::Found(raw) && pid_in(raw@) is None) ==> holder_of(seq![file])
            is Garbled,
        (file matches FileText::Found(raw) && pid_in(raw@) is Some) ==> holder_of(seq![file])
            == LeaseHolder::Process(pid_in(file->Found_0@)->Some_0 as i32),
        holder_of(Seq::empty()) is Unrecorded,
    decreases a.len(),
{
    reveal_with_fuel(holder_of, 2);
    assert(seq![file].skip(1) =~= Seq::<FileText>::empty());
    if a.len() == 0 {
        assert(a + b =~= b);
    } else {
        let rest = a.skip(1);
        lemma_holder_of(rest, b, file);
        assert((a + b).skip(1) =~= rest + b);
        assert((a + b)[0] == a[0]);
        if !(a[0] is Found) {
            if forall|i: int| 0 <= i < a.len() ==> !(#[trigger] a[i] is Found) {
                assert forall|i: int| 0 <= i < rest.len() implies !(#[trigger] rest[i] is Found) by {
                    assert(rest[i] == a[i + 1]);
                }
            }
            if exists|i: int| 0 <= i < a.len() && #[trigger] a[i] is Found {
                let i = choose|i: int| 0 <= i < a.len() && #[trigger] a[i] is Found;
                assert(rest[i - 1] == a[i]);
            }
        }
    }
}

/// A lock is never stale while the process that holds it lives; it is as soon as that is
/// gone; and one that names nobody is stale after ten seconds.
pub proof fn lemma_when_a_lock_is_stale(pid: i32, probe: ProcessProbe, age_ms: u64)
    ensures
        pid > 0 && (probe is Reached || probe is NotPermitted) ==> !is_stale(
            LeaseHolder::Process(pid),
            probe,
            age_ms,
        ),
        pid <= 0 || probe is Gone ==> is_stale(LeaseHolder::Process(pid), probe, age_ms),
        is_stale(LeaseHolder::Garbled, probe, age_ms),
        is_stale(LeaseHolder::Unrecorded, probe, age_ms) <==> age_ms > 10000,
{
}

/// The guard of a lock lies beside it, under its name with `.guard` behind.
pub proof fn lemma_guard_lies_beside(path: Seq<char>, name: Seq<char>)
    requires
        paths::name_of(path) == Some(name),
    ensures
        paths::components(guard_path(path)) == paths::components(path).drop_last().push(
            name + ".guard"@,
        ),
{
    reveal_strlit(".guard");
    let full = name + ".guard"@;
    paths::lemma_components_are_parts(path);
    paths::lemma_parent_and_name(path);
    let parts = paths::components(path);
    assert(parts[parts.len() - 1] == name);
    assert(!full.contains('/')) by {
        if full.contains('/') {
            let k = choose|k: int| 0 <= k < full.len() && full[k] == '/';
            if k < name.len() {
                assert(name[k] == '/');
            }
        }
    }
    assert(full.len() > 6);
    paths::lemma_name_in_directory(paths::parent_of(path)->Some_0, full);
}

/// How an owner is replaced: it is asked to end and has five seconds, is killed when they
/// are over and then has two, and nothing is cleaned up while it lives and has time.
pub proof fn lemma_how_an_owner_is_replaced(state: Replacing, seen: ReplaceView)
    requires
        seen.now <= u64::MAX - OWNER_REPLACE_GRACE_MS,
    ensures
        (replace_response(state, seen).0 is Terminate) <==> state is Begin && seen.owner is Some,
        replace_response(state, seen).0 matches ReplaceAction::Terminate(pid) ==> seen.owner
            == Some(pid) && (replace_response(state, seen).1 matches Replacing::Terminating {
            pid: p,
            deadline,
        } && p == pid && deadline == seen.now + 5000),
        (replace_response(state, seen).0 is Kill) <==> (state matches Replacing::Terminating {
            pid,
            deadline,
        } && seen.now >= deadline),
        replace_response(state, seen).0 matches ReplaceAction::Kill(pid) ==> (replace_response(
            state,
            seen,
        ).1 matches Replacing::Killing { pid: p, deadline } && p == pid && deadline == seen.now
            + 2000),
        (replace_response(state, seen).0 is Wait) <==> ((state matches Replacing::Terminating {
            pid,
            deadline,
        } && seen.now < deadline && seen.alive) || (state matches Replacing::Killing {
            pid,
            deadline,
        } && seen.now < deadline && seen.alive)),
        replace_response(state, seen).0 is Wait ==> replace_response(state, seen).1 == state,
        replace_response(state, seen).0 matches ReplaceAction::Clean { lock } ==> lock == (
        !(state is Begin) || seen.stale),
        (replace_response(state, seen).1 is Done) <==> replace_response(state, seen).0 is Clean
            || replace_response(state, seen).0 is Finished,
{
}

/// The lease of an owner is one line that begins with its number, holds the version that
/// it speaks, and names its agent and its binary as JSON writes them.
#[verifier::spinoff_prover]
#[verifier::rlimit(40)]
pub proof fn lemma_lease(
    pid: u32,
    protocol_version: u16,
    agent_source_stamp: Seq<char>,
    binary_path: Seq<char>,
)
    ensures
        ({
            let lease = lease_text(pid, protocol_version, agent_source_stamp, binary_path);
            &&& text::begins(lease, "{\"pid\":"@ + text::dec(pid as nat) + ","@)
            &&& text::ends(lease, "\"}\n"@)
            &&& text::holds(
                lease,
                ",\"protocol_version\":"@ + text::dec(protocol_version as nat)
                    + ",\"agent_source_stamp\":\""@,
            )
            &&& text::holds(
                lease,
                ",\"agent_source_stamp\":\""@ + logs::json_escaped(agent_source_stamp)
                    + "\",\"binary_path\":\""@ + logs::json_escaped(binary_path) + "\"}\n"@,
            )
        }),
{
    let lease = lease_text(pid, protocol_version, agent_source_stamp, binary_path);
    let none = Seq::<char>::empty();
    let a = "{\"pid\":"@ + text::dec(pid as nat);
    let b = ",\"protocol_version\":"@;
    let v = text::dec(protocol_version as nat);
    let c = ",\"agent_source_stamp\":\""@;
    let x = logs::json_escaped(agent_source_stamp);
    let d = "\",\"binary_path\":\""@;
    let y = logs::json_escaped(binary_path);
    let e = "\"}\n"@;
    let comma = ","@;
    assert(b =~= comma + b.skip(1)) by {
        reveal_strlit(",\"protocol_version\":");
        reveal_strlit(",");
    }
    let middle = b + v + c;
    let end = c + x + d + y + e;
    assert(lease =~= a + middle + (x + d + y + e));
    assert(lease =~= (a + b + v) + end + none);
    assert(lease =~= (a + b + v + c + x + d + y) + none + e);
    assert(lease =~= (a + comma) + (b.skip(1) + v) + end);
    text::lemma_parts_occur(a, middle, x + d + y + e);
    text::lemma_parts_occur(a + b + v, end, none);
    text::lemma_parts_occur(a + b + v + c + x + d + y, none, e);
    text::lemma_parts_occur(a + comma, b.skip(1) + v, end);
}

} // verus!
