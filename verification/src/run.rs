//! Running a command: which VM serves it, who owns that VM, and what the user is told
//! when it goes wrong.
use vstd::prelude::*;

use crate::bytes;
use crate::config;
use crate::config::ConfigError;
use crate::config::RunConfig;
use crate::paths;
use crate::protocol;
use crate::protocol::AfterConnectError;
use crate::protocol::ConnectError;
use crate::protocol::HelloError;
use crate::settings;
use crate::text;

verus! {

/// The status of an owner whose VM could not be restored.
pub const EXIT_RESTORE_FAILED: i32 = 86;

/// How long a detached owner may take to come up, in milliseconds.
pub const OWNER_BOOT_TIMEOUT_MS: u64 = 120000;

/// How long a foreground VM may take to serve its own client, in milliseconds.
pub const FOREGROUND_CLIENT_TIMEOUT_MS: u64 = 5000;

// ---------------------------------------------------------------------------
// A run
// ---------------------------------------------------------------------------

/// Whether a run must have an owner of its own.
pub open spec fn is_fresh(reuse_owner: bool, debug: Option<Seq<char>>) -> bool {
    !reuse_owner || settings::flag_set(debug, "nodaemonreuse"@)
}

/// Whether a run must have an owner of its own: where the user or a debug flag asks for
/// it.
pub fn wants_fresh_owner(config: &RunConfig, debug: Option<&str>) -> (r: bool)
    ensures
        r == is_fresh(config.reuse_owner, text::opt_view(debug)),
{
    !config.reuse_owner || settings::debug_flag_enabled_in(debug, "nodaemonreuse")
}

/// Where a run stands.
#[derive(Clone, Copy, PartialEq, Eq, Structural, Debug)]
pub enum RunPhase {
    /// Ask a VM that is already running.
    AskExisting,
    /// Make room for an owner of its own.
    FreshSlot,
    /// Run the VM in the foreground.
    Foreground,
    /// Take the lock to start a detached owner. Another run may come first.
    OwnerStart,
    /// Start the owner, and wait for it to serve the command.
    AwaitOwner,
    Done(i32),
    Failed,
}

/// What came of a phase.
#[derive(Clone, Copy, PartialEq, Eq, Structural, Debug)]
pub enum PhaseOutcome {
    /// The command was served, with this status.
    Served(i32),
    /// The phase did its part; nothing served the command.
    Ready,
    Error,
}

/// Whether a run may be served by an owner that it did not start.
pub open spec fn may_reuse(config: RunConfig, fresh: bool) -> bool {
    config.forwards@.len() == 0 && !fresh
}

/// Whether a run may be served by an owner that it did not start: forwards belong to an
/// owner of their own.
pub fn may_reuse_owner(config: &RunConfig, fresh: bool) -> (r: bool)
    ensures
        r == may_reuse(*config, fresh),
{
    config.forwards.len() == 0 && !fresh
}

/// The first phase of a run that can be run.
pub open spec fn first_phase(config: RunConfig, fresh: bool) -> RunPhase {
    if may_reuse(config, fresh) {
        RunPhase::AskExisting
    } else {
        RunPhase::FreshSlot
    }
}

/// The first phase of a run.
pub fn begin_run(config: &RunConfig, fresh: bool) -> (r: Result<RunPhase, ConfigError>)
    ensures
        r == (if config.trace_events && config.deterministic is None {
            Err(ConfigError::TraceWithoutDeterminism)
        } else if !config::all_read_only(config.vhost_user_fs@) {
            Err(ConfigError::WritableVhostUserFs)
        } else {
            Ok(first_phase(*config, fresh))
        }),
{
    match config::validate_config(config) {
        Err(e) => Err(e),
        Ok(()) => if may_reuse_owner(config, fresh) {
            Ok(RunPhase::AskExisting)
        } else {
            Ok(RunPhase::FreshSlot)
        },
    }
}

/// The phase that follows. A run whose snapshot must be written before it returns keeps
/// its VM in the foreground.
pub open spec fn following(phase: RunPhase, outcome: PhaseOutcome, writes_snapshot: bool) -> RunPhase {
    match (phase, outcome) {
        (RunPhase::Done(_), _) => phase,
        (RunPhase::Failed, _) => phase,
        (_, PhaseOutcome::Error) => RunPhase::Failed,
        (_, PhaseOutcome::Served(status)) => RunPhase::Done(status),
        (RunPhase::AskExisting, PhaseOutcome::Ready) => if writes_snapshot {
            RunPhase::Foreground
        } else {
            RunPhase::OwnerStart
        },
        (RunPhase::FreshSlot, PhaseOutcome::Ready) => if writes_snapshot {
            RunPhase::Foreground
        } else {
            RunPhase::OwnerStart
        },
        (RunPhase::OwnerStart, PhaseOutcome::Ready) => RunPhase::AwaitOwner,
        (RunPhase::Foreground, PhaseOutcome::Ready) => RunPhase::Failed,
        (RunPhase::AwaitOwner, PhaseOutcome::Ready) => RunPhase::Failed,
    }
}

/// The phase that follows.
pub fn next_phase(phase: RunPhase, outcome: PhaseOutcome, writes_snapshot: bool) -> (r: RunPhase)
    ensures
        r == following(phase, outcome, writes_snapshot),
{
    match (phase, outcome) {
        (RunPhase::Done(_), _) => phase,
        (RunPhase::Failed, _) => phase,
        (_, PhaseOutcome::Error) => RunPhase::Failed,
        (_, PhaseOutcome::Served(status)) => RunPhase::Done(status),
        (RunPhase::AskExisting, PhaseOutcome::Ready) => if writes_snapshot {
            RunPhase::Foreground
        } else {
            RunPhase::OwnerStart
        },
        (RunPhase::FreshSlot, PhaseOutcome::Ready) => if writes_snapshot {
            RunPhase::Foreground
        } else {
            RunPhase::OwnerStart
        },
        (RunPhase::OwnerStart, PhaseOutcome::Ready) => RunPhase::AwaitOwner,
        (RunPhase::Foreground, PhaseOutcome::Ready) => RunPhase::Failed,
        (RunPhase::AwaitOwner, PhaseOutcome::Ready) => RunPhase::Failed,
    }
}

/// How many phases a run has left at most.
pub open spec fn phases_left(phase: RunPhase) -> nat {
    match phase {
        RunPhase::AskExisting => 3,
        RunPhase::FreshSlot => 3,
        RunPhase::OwnerStart => 2,
        RunPhase::Foreground => 1,
        RunPhase::AwaitOwner => 1,
        RunPhase::Done(_) => 0,
        RunPhase::Failed => 0,
    }
}

/// The phase after several outcomes.
pub open spec fn after_phases(
    phase: RunPhase,
    outcomes: Seq<PhaseOutcome>,
    writes_snapshot: bool,
) -> RunPhase
    decreases outcomes.len(),
{
    if outcomes.len() == 0 {
        phase
    } else {
        following(
            after_phases(phase, outcomes.drop_last(), writes_snapshot),
            outcomes.last(),
            writes_snapshot,
        )
    }
}

/// Every run ends: each phase that is not the end leaves fewer, so three phases end it.
pub proof fn lemma_run_ends(phase: RunPhase, outcomes: Seq<PhaseOutcome>, writes_snapshot: bool)
    requires
        outcomes.len() >= phases_left(phase),
    ensures
        phases_left(after_phases(phase, outcomes, writes_snapshot)) == 0,
{
    lemma_phases_shrink(phase, outcomes, writes_snapshot);
}

proof fn lemma_phases_shrink(phase: RunPhase, outcomes: Seq<PhaseOutcome>, writes_snapshot: bool)
    ensures
        phases_left(after_phases(phase, outcomes, writes_snapshot)) == 0 || phases_left(
            after_phases(phase, outcomes, writes_snapshot),
        ) + outcomes.len() <= phases_left(phase),
    decreases outcomes.len(),
{
    if outcomes.len() > 0 {
        lemma_phases_shrink(phase, outcomes.drop_last(), writes_snapshot);
    }
}

/// A run that must have an owner of its own, or has forwards, never asks a VM that is
/// already running.
pub proof fn lemma_fresh_run_asks_no_other(
    config: RunConfig,
    fresh: bool,
    outcomes: Seq<PhaseOutcome>,
    writes_snapshot: bool,
)
    requires
        !may_reuse(config, fresh),
    ensures
        after_phases(first_phase(config, fresh), outcomes, writes_snapshot)
            != RunPhase::AskExisting,
    decreases outcomes.len(),
{
    if outcomes.len() > 0 {
        lemma_fresh_run_asks_no_other(config, fresh, outcomes.drop_last(), writes_snapshot);
    }
}

// ---------------------------------------------------------------------------
// A VM in the foreground
// ---------------------------------------------------------------------------

/// Where a run with its VM in the foreground stands.
#[derive(Clone, Copy, PartialEq, Eq, Structural, Debug)]
pub enum ForegroundPhase {
    /// Make room for an owner of its own.
    FreshSlot,
    /// Take the lock of the VM, or be served by the owner that has it.
    LockOrClient,
    /// Take the lock of the VM, or fail.
    Lock,
    /// Ask an owner that came up before the lock was taken.
    AskExisting,
    /// Start the VM.
    Start,
    /// Be served by it.
    Client,
    Done(i32),
    Failed,
}

/// The first phase of a run in the foreground.
pub open spec fn foreground_first(fresh: bool, has_forwards: bool) -> ForegroundPhase {
    if fresh {
        ForegroundPhase::FreshSlot
    } else if has_forwards {
        ForegroundPhase::Lock
    } else {
        ForegroundPhase::LockOrClient
    }
}

/// The phase of a run in the foreground that follows.
pub open spec fn foreground_following(
    phase: ForegroundPhase,
    outcome: PhaseOutcome,
    fresh: bool,
    has_forwards: bool,
) -> ForegroundPhase {
    match (phase, outcome) {
        (ForegroundPhase::Done(_), _) => phase,
        (ForegroundPhase::Failed, _) => phase,
        (_, PhaseOutcome::Error) => ForegroundPhase::Failed,
        (_, PhaseOutcome::Served(status)) => ForegroundPhase::Done(status),
        (ForegroundPhase::FreshSlot, PhaseOutcome::Ready) => foreground_first(false, has_forwards),
        (ForegroundPhase::LockOrClient, PhaseOutcome::Ready) => if fresh {
            ForegroundPhase::Start
        } else {
            ForegroundPhase::AskExisting
        },
        (ForegroundPhase::Lock, PhaseOutcome::Ready) => ForegroundPhase::Start,
        (ForegroundPhase::AskExisting, PhaseOutcome::Ready) => ForegroundPhase::Start,
        (ForegroundPhase::Start, PhaseOutcome::Ready) => ForegroundPhase::Client,
        (ForegroundPhase::Client, PhaseOutcome::Ready) => ForegroundPhase::Failed,
    }
}

/// The first phase of a run in the foreground.
pub fn begin_foreground(fresh: bool, has_forwards: bool) -> (r: ForegroundPhase)
    ensures
        r == foreground_first(fresh, has_forwards),
{
    if fresh {
        ForegroundPhase::FreshSlot
    } else if has_forwards {
        ForegroundPhase::Lock
    } else {
        ForegroundPhase::LockOrClient
    }
}

/// The phase of a run in the foreground that follows.
pub fn next_foreground_phase(
    phase: ForegroundPhase,
    outcome: PhaseOutcome,
    fresh: bool,
    has_forwards: bool,
) -> (r: ForegroundPhase)
    ensures
        r == foreground_following(phase, outcome, fresh, has_forwards),
{
    match (phase, outcome) {
        (ForegroundPhase::Done(_), _) => phase,
        (ForegroundPhase::Failed, _) => phase,
        (_, PhaseOutcome::Error) => ForegroundPhase::Failed,
        (_, PhaseOutcome::Served(status)) => ForegroundPhase::Done(status),
        (ForegroundPhase::FreshSlot, PhaseOutcome::Ready) => begin_foreground(false, has_forwards),
        (ForegroundPhase::LockOrClient, PhaseOutcome::Ready) => if fresh {
            ForegroundPhase::Start
        } else {
            ForegroundPhase::AskExisting
        },
        (ForegroundPhase::Lock, PhaseOutcome::Ready) => ForegroundPhase::Start,
        (ForegroundPhase::AskExisting, PhaseOutcome::Ready) => ForegroundPhase::Start,
        (ForegroundPhase::Start, PhaseOutcome::Ready) => ForegroundPhase::Client,
        (ForegroundPhase::Client, PhaseOutcome::Ready) => ForegroundPhase::Failed,
    }
}

/// The phase of a run in the foreground after several outcomes.
pub open spec fn after_foreground(
    outcomes: Seq<PhaseOutcome>,
    fresh: bool,
    has_forwards: bool,
) -> ForegroundPhase
    decreases outcomes.len(),
{
    if outcomes.len() == 0 {
        foreground_first(fresh, has_forwards)
    } else {
        foreground_following(
            after_foreground(outcomes.drop_last(), fresh, has_forwards),
            outcomes.last(),
            fresh,
            has_forwards,
        )
    }
}

/// Whether a phase has the lock of the VM behind it.
pub open spec fn holds_lock(phase: ForegroundPhase) -> bool {
    phase is AskExisting || phase is Start || phase is Client
}

/// Whether a phase takes the lock of the VM.
pub open spec fn takes_lock(phase: ForegroundPhase) -> bool {
    phase is Lock || phase is LockOrClient
}

/// A VM is started in the foreground only under its lock: before the phase that starts
/// it, an earlier phase took the lock.
pub proof fn lemma_start_needs_the_lock(outcomes: Seq<PhaseOutcome>, fresh: bool, has_forwards: bool)
    requires
        holds_lock(after_foreground(outcomes, fresh, has_forwards)),
    ensures
        exists|k: int|
            0 <= k < outcomes.len() && takes_lock(
                after_foreground(#[trigger] outcomes.take(k), fresh, has_forwards),
            ) && outcomes[k] == PhaseOutcome::Ready,
    decreases outcomes.len(),
{
    let n = outcomes.len() as int;
    let before = after_foreground(outcomes.drop_last(), fresh, has_forwards);
    assert(outcomes.take(n - 1) =~= outcomes.drop_last());
    if takes_lock(before) {
        assert(outcomes[n - 1] == PhaseOutcome::Ready);
    } else {
        lemma_start_needs_the_lock(outcomes.drop_last(), fresh, has_forwards);
        let k = choose|k: int|
            0 <= k < outcomes.drop_last().len() && takes_lock(
                after_foreground(#[trigger] outcomes.drop_last().take(k), fresh, has_forwards),
            ) && outcomes.drop_last()[k] == PhaseOutcome::Ready;
        assert(outcomes.drop_last().take(k) =~= outcomes.take(k));
    }
}

/// The message for a run with forwards that is not alone.
pub fn exclusive_lock_message() -> (m: &'static str)
    ensures
        m@
            == "starting a fresh VM owner requires exclusive ownership, but another owner started for this instance"@,
{
    "starting a fresh VM owner requires exclusive ownership, but another owner started for this instance"
}

// ---------------------------------------------------------------------------
// The owner
// ---------------------------------------------------------------------------

/// What became of starting the VM.
#[derive(Clone, Copy, PartialEq, Eq, Structural, Debug)]
pub enum StartResult {
    Started,
    /// The snapshot's memory was refused.
    RestoreRefused,
    Failed,
}

/// What the owner does next.
#[derive(Clone, Copy, PartialEq, Eq, Structural, Debug)]
pub enum OwnerNext {
    /// Start the VM.
    Start,
    /// Leave: another owner serves the instance.
    Leave,
    /// Wait until the VM has ended.
    Serve,
    /// Exit with this status.
    Exit(i32),
    Fail,
}

/// What the owner does once it looked for the lock; without it, another owner is serving.
pub fn owner_after_lock(got_lock: bool) -> (r: OwnerNext)
    ensures
        r == (if got_lock {
            OwnerNext::Start
        } else {
            OwnerNext::Leave
        }),
{
    if got_lock {
        OwnerNext::Start
    } else {
        OwnerNext::Leave
    }
}

/// What the owner does once it tried to start the VM. A refused restore has a status of
/// its own, so that the client can tell it from other failures.
pub fn owner_after_start(result: StartResult) -> (r: OwnerNext)
    ensures
        r == (match result {
            StartResult::Started => OwnerNext::Serve,
            StartResult::RestoreRefused => OwnerNext::Exit(EXIT_RESTORE_FAILED),
            StartResult::Failed => OwnerNext::Fail,
        }),
{
    match result {
        StartResult::Started => OwnerNext::Serve,
        StartResult::RestoreRefused => OwnerNext::Exit(EXIT_RESTORE_FAILED),
        StartResult::Failed => OwnerNext::Fail,
    }
}

/// How an owner that has ended ended.
#[derive(Clone, Copy, PartialEq, Eq, Structural, Debug)]
pub struct OwnerExit {
    /// Its status; none when a signal ended it.
    pub code: Option<i32>,
}

/// What a client that waits for its owner does next.
#[derive(Clone, Copy, PartialEq, Eq, Structural, Debug)]
pub enum AwaitOwner {
    /// The user interrupted it: return this status.
    Interrupted(i32),
    /// Run the command.
    Session,
    /// The owner speaks another version.
    Mismatch,
    /// The owner ended: the snapshot's memory was refused.
    RestoreRefused,
    /// The owner ended.
    ExitedEarly,
    /// Try again after a short while.
    Wait,
    /// Give up; the last failure to connect, if there was one, says why.
    TimedOut,
}

/// What came of connecting to an owner.
#[derive(Clone, Copy, PartialEq, Eq, Structural, Debug)]
pub enum ConnectSeen {
    Connected,
    /// The owner speaks another version: there is no use in trying again.
    Mismatch { expected: u16, actual: u16 },
    NotReady,
}

/// Judges what came of connecting to an owner.
pub fn connect_seen(result: Result<(), ConnectError>) -> (r: ConnectSeen)
    ensures
        match result {
            Ok(()) => r == ConnectSeen::Connected,
            Err(ConnectError::Hello(HelloError::Mismatch { expected, actual })) => r
                == (ConnectSeen::Mismatch { expected, actual }),
            Err(_) => r == ConnectSeen::NotReady,
        },
{
    match result {
        Ok(()) => ConnectSeen::Connected,
        Err(e) => match protocol::after_connect_error(e) {
            AfterConnectError::Propagate { expected, actual } => ConnectSeen::Mismatch {
                expected,
                actual,
            },
            AfterConnectError::NotReady => ConnectSeen::NotReady,
        },
    }
}

/// What a client that waits for its owner does next. What came of connecting, and how the
/// owner ended, if it did, count only before the deadline.
pub open spec fn await_response(
    elapsed_ms: u64,
    interrupted: bool,
    connect: ConnectSeen,
    exit: Option<OwnerExit>,
) -> AwaitOwner {
    if elapsed_ms >= OWNER_BOOT_TIMEOUT_MS {
        AwaitOwner::TimedOut
    } else if interrupted {
        AwaitOwner::Interrupted(protocol::INTERRUPTED_STATUS)
    } else {
        match (connect, exit) {
            (ConnectSeen::Connected, _) => AwaitOwner::Session,
            (ConnectSeen::Mismatch { .. }, _) => AwaitOwner::Mismatch,
            (ConnectSeen::NotReady, Some(e)) => if e.code == Some(EXIT_RESTORE_FAILED) {
                AwaitOwner::RestoreRefused
            } else {
                AwaitOwner::ExitedEarly
            },
            (ConnectSeen::NotReady, None) => AwaitOwner::Wait,
        }
    }
}

/// Decides what a client that waits for its owner does next.
pub fn await_owner_step(
    elapsed_ms: u64,
    interrupted: bool,
    connect: ConnectSeen,
    exit: Option<OwnerExit>,
) -> (r: AwaitOwner)
    ensures
        r == await_response(elapsed_ms, interrupted, connect, exit),
{
    if elapsed_ms >= OWNER_BOOT_TIMEOUT_MS {
        return AwaitOwner::TimedOut;
    }
    if interrupted {
        return AwaitOwner::Interrupted(protocol::INTERRUPTED_STATUS);
    }
    match connect {
        ConnectSeen::Connected => AwaitOwner::Session,
        ConnectSeen::Mismatch { expected: _, actual: _ } => AwaitOwner::Mismatch,
        ConnectSeen::NotReady => match exit {
            Some(e) => match e.code {
                Some(code) => if code == EXIT_RESTORE_FAILED {
                    AwaitOwner::RestoreRefused
                } else {
                    AwaitOwner::ExitedEarly
                },
                None => AwaitOwner::ExitedEarly,
            },
            None => AwaitOwner::Wait,
        },
    }
}

/// What a client that tries to connect for a while does next.
#[derive(Clone, Copy, PartialEq, Eq, Structural, Debug)]
pub enum Retry {
    Session,
    Mismatch,
    Wait,
    TimedOut,
}

/// Decides what a client that tries to connect for a while does next.
pub fn retry_step(elapsed_ms: u64, timeout_ms: u64, connect: ConnectSeen) -> (r: Retry)
    ensures
        r == (if elapsed_ms >= timeout_ms {
            Retry::TimedOut
        } else {
            match connect {
                ConnectSeen::Connected => Retry::Session,
                ConnectSeen::Mismatch { .. } => Retry::Mismatch,
                ConnectSeen::NotReady => Retry::Wait,
            }
        }),
        r is TimedOut <==> elapsed_ms >= timeout_ms,
        r is Session <==> elapsed_ms < timeout_ms && connect is Connected,
        r is Mismatch <==> elapsed_ms < timeout_ms && connect is Mismatch,
{
    if elapsed_ms >= timeout_ms {
        Retry::TimedOut
    } else {
        match connect {
            ConnectSeen::Connected => Retry::Session,
            ConnectSeen::Mismatch { expected: _, actual: _ } => Retry::Mismatch,
            ConnectSeen::NotReady => Retry::Wait,
        }
    }
}

// ---------------------------------------------------------------------------
// What the user is told
// ---------------------------------------------------------------------------

/// How much of the owner's log is shown, in bytes.
pub const OWNER_LOG_TAIL: usize = 2048;

/// How much of the console's log is shown, in bytes.
pub const CONSOLE_TAIL: usize = 4096;

/// How many lines of the console's log go to the run log.
pub const CONSOLE_LOG_LINES: usize = 12;

/// Bytes as text, with replacement characters for what is no text.
pub uninterp spec fn lossy_text(b: Seq<u8>) -> Seq<char>;

/// Reads bytes as text with `String::from_utf8_lossy`. What is no text is replaced by
/// rules that are only named here; bytes that are the encoding of a text are read as that
/// text.
#[verifier::external_body]
fn lossy(b: &[u8]) -> (s: String)
    ensures
        s@ == lossy_text(b@),
        forall|t: Seq<char>| vstd::utf8::encode_utf8(t) == b@ ==> s@ == t,
{
    String::from_utf8_lossy(b).into_owned()
}

/// The last bytes of a log.
pub open spec fn tail(log: Seq<u8>, size: nat) -> Seq<u8> {
    if log.len() <= size {
        log
    } else {
        log.skip(log.len() - size)
    }
}

/// The end of a log as text.
pub fn log_tail(log: &[u8], size: usize) -> (s: String)
    ensures
        s@ == lossy_text(tail(log@, size as nat)),
{
    let n: usize = log.len();
    let from: usize = if n > size {
        n - size
    } else {
        0
    };
    let part: Vec<u8> = bytes::part(log, from, n);
    assert(part@ =~= tail(log@, size as nat));
    lossy(part.as_slice())
}

/// A hint with the end of a log, given as text.
pub open spec fn hint_text(heading: Seq<char>, end: Seq<char>) -> Seq<char> {
    heading + text::trimmed_end(end)
}

/// A hint with the end of a log, given as text.
pub fn hint(heading: &str, end: &str) -> (s: String)
    ensures
        s@ == hint_text(heading@, end@),
{
    let mut s: String = heading.to_owned();
    s.append(text::trim_end(end));
    s
}

/// The heading of the owner's log.
pub open spec fn owner_heading(path: Seq<char>) -> Seq<char> {
    "\n\nVM owner log ("@ + path + "):\n"@
}

/// A hint with the end of the owner's log; empty where there is nothing to show.
pub fn owner_log_hint(layout: &paths::Layout, log: Option<&[u8]>) -> (s: String)
    ensures
        match log {
            Some(b) => if b@.len() == 0 {
                s@.len() == 0
            } else {
                s@ == hint_text(
                    owner_heading(paths::joined(layout.run_dir@, "owner.log"@)),
                    lossy_text(tail(b@, OWNER_LOG_TAIL as nat)),
                )
            },
            None => s@.len() == 0,
        },
{
    match log {
        Some(b) => {
            if b.len() == 0 {
                return String::new();
            }
            let mut heading: String = "\n\nVM owner log (".to_owned();
            heading.append(paths::join(layout.run_dir.as_str(), "owner.log").as_str());
            heading.append("):\n");
            hint(heading.as_str(), log_tail(b, OWNER_LOG_TAIL).as_str())
        },
        None => String::new(),
    }
}

/// A hint with the end of the console's log; empty where there is nothing to show.
pub fn console_hint(log: Option<&[u8]>) -> (s: String)
    ensures
        match log {
            Some(b) => if b@.len() == 0 {
                s@.len() == 0
            } else {
                s@ == hint_text(
                    "\n\nVM console:\n"@,
                    lossy_text(tail(b@, CONSOLE_TAIL as nat)),
                )
            },
            None => s@.len() == 0,
        },
{
    match log {
        Some(b) => {
            if b.len() == 0 {
                return String::new();
            }
            hint("\n\nVM console:\n", log_tail(b, CONSOLE_TAIL).as_str())
        },
        None => String::new(),
    }
}

/// The last lines of a text for the run log.
pub open spec fn tail_lines(end: Seq<char>, count: nat) -> Seq<Seq<char>> {
    let lines = text::lines_of(end);
    let kept = if lines.len() <= count {
        lines
    } else {
        lines.skip(lines.len() - count)
    };
    Seq::new(kept.len(), |i: int| "console.tail "@ + text::trimmed_end(kept[i]))
}

/// The last lines of a text for the run log.
pub fn console_lines(end: &str, count: usize) -> (r: Vec<String>)
    ensures
        text::views(r@) == tail_lines(end@, count as nat),
{
    let lines: Vec<String> = text::lines(end);
    let ghost all = text::lines_of(end@);
    assert(lines@.len() == all.len());
    let from: usize = if lines.len() > count {
        lines.len() - count
    } else {
        0
    };
    let ghost kept = all.skip(from as int);
    assert(from == 0 ==> kept =~= all);
    let mut r: Vec<String> = Vec::new();
    let mut i: usize = from;
    while i < lines.len()
        invariant
            from <= i <= lines@.len(),
            all == text::views(lines@),
            kept == all.skip(from as int),
            r@.len() == i - from,
            forall|k: int|
                0 <= k < i - from ==> (#[trigger] r@[k])@ == "console.tail "@ + text::trimmed_end(
                    kept[k],
                ),
        decreases lines@.len() - i,
    {
        let mut line: String = "console.tail ".to_owned();
        assert(kept[i - from] == lines@[i as int]@);
        line.append(text::trim_end(lines[i].as_str()));
        r.push(line);
        i = i + 1;
    }
    assert(text::views(r@) =~= tail_lines(end@, count as nat));
    r
}

/// What came of reading the console's log.
#[derive(Debug, PartialEq, Eq)]
pub enum ConsoleRead {
    Read(Vec<u8>),
    Failed(String),
}

/// What the run log says about the console.
pub fn console_tail_lines(path: &str, read: &ConsoleRead) -> (r: Vec<String>)
    ensures
        text::views(r@) == (match *read {
            ConsoleRead::Read(b) => if b@.len() == 0 {
                seq!["console.tail path="@ + path@ + " empty=true"@]
            } else {
                tail_lines(lossy_text(tail(b@, CONSOLE_TAIL as nat)), CONSOLE_LOG_LINES as nat)
            },
            ConsoleRead::Failed(e) => seq!["console.tail path="@ + path@ + " read_error="@ + e@],
        }),
{
    let mut line: String = "console.tail path=".to_owned();
    line.append(path);
    match read {
        ConsoleRead::Read(b) => {
            if b.len() > 0 {
                return console_lines(
                    log_tail(b.as_slice(), CONSOLE_TAIL).as_str(),
                    CONSOLE_LOG_LINES,
                );
            }
            line.append(" empty=true");
        },
        ConsoleRead::Failed(e) => {
            line.append(" read_error=");
            line.append(e.as_str());
        },
    }
    let mut r: Vec<String> = Vec::new();
    r.push(line);
    assert(text::views(r@) =~= seq![line@]);
    r
}

/// The message for an owner that ended before it served. `status` is how the operating
/// system puts it.
pub fn owner_exit_message(refused: bool, status: &str, owner_hint: &str, console_hint: &str) -> (m:
    String)
    ensures
        m@ == (if refused {
            "VM memory snapshot restore was refused before the broker came up"@
        } else {
            "lnx VM owner exited with "@ + status@ + " before the broker came up"@
        }) + owner_hint@ + console_hint@,
{
    let mut m: String = if refused {
        "VM memory snapshot restore was refused before the broker came up".to_owned()
    } else {
        let mut m: String = "lnx VM owner exited with ".to_owned();
        m.append(status);
        m.append(" before the broker came up");
        m
    };
    m.append(owner_hint);
    m.append(console_hint);
    m
}

/// The message for an owner that took too long. `last` says whether connecting failed
/// before that.
pub fn owner_timeout_message(last: bool, console_hint: &str) -> (m: String)
    ensures
        m@ == (if last {
            "timed out waiting for the lnx VM owner broker"@ + console_hint@
        } else {
            "timed out waiting for the lnx VM owner broker"@
        }),
{
    let mut m: String = "timed out waiting for the lnx VM owner broker".to_owned();
    if last {
        m.append(console_hint);
    }
    m
}

/// What a file is.
#[derive(Clone, Copy, PartialEq, Eq, Structural, Debug)]
pub enum FileKind {
    Dir,
    File,
    Other,
}

/// What is known of a file.
#[derive(Debug, PartialEq, Eq)]
pub struct FileSummary {
    pub kind: FileKind,
    pub size: u64,
    pub blocks: u64,
    /// Seconds since the epoch; none for a time before it.
    pub modified_unix: Option<u64>,
}

/// What a file is, in words.
pub open spec fn kind_word(kind: FileKind) -> Seq<char> {
    match kind {
        FileKind::Dir => "dir"@,
        FileKind::File => "file"@,
        FileKind::Other => "other"@,
    }
}

/// How many bytes blocks hold, up to the largest number.
pub open spec fn allocated(blocks: u64) -> nat {
    if blocks * 512 > u64::MAX {
        u64::MAX as nat
    } else {
        (blocks * 512) as nat
    }
}

/// What the run log says about a file.
pub open spec fn summary_text(
    label: Seq<char>,
    path: Seq<char>,
    summary: Result<FileSummary, String>,
) -> Seq<char> {
    match summary {
        Ok(f) => label + " path="@ + path + " kind="@ + kind_word(f.kind) + " size="@ + text::dec(
            f.size as nat,
        ) + " blocks="@ + text::dec(f.blocks as nat) + " allocated_bytes="@ + text::dec(
            allocated(f.blocks),
        ) + " modified_unix="@ + (match f.modified_unix {
            Some(secs) => text::dec(secs as nat),
            None => "unknown"@,
        }),
        Err(e) => label + " path="@ + path + " stat_error="@ + e@,
    }
}

/// What the run log says about a file.
pub fn file_summary_line(label: &str, path: &str, summary: &Result<FileSummary, String>) -> (s:
    String)
    ensures
        s@ == summary_text(label@, path@, *summary),
{
    let mut s: String = label.to_owned();
    s.append(" path=");
    s.append(path);
    match summary {
        Ok(f) => {
            s.append(" kind=");
            match f.kind {
                FileKind::Dir => s.append("dir"),
                FileKind::File => s.append("file"),
                FileKind::Other => s.append("other"),
            }
            s.append(" size=");
            text::push_dec(&mut s, f.size as u128);
            s.append(" blocks=");
            text::push_dec(&mut s, f.blocks as u128);
            s.append(" allocated_bytes=");
            let held: u64 = if f.blocks > u64::MAX / 512 {
                u64::MAX
            } else {
                f.blocks * 512
            };
            text::push_dec(&mut s, held as u128);
            s.append(" modified_unix=");
            match f.modified_unix {
                Some(secs) => text::push_dec(&mut s, secs as u128),
                None => s.append("unknown"),
            }
        },
        Err(e) => {
            s.append(" stat_error=");
            s.append(e.as_str());
        },
    }
    s
}

// ---------------------------------------------------------------------------
// Laws of a run
// ---------------------------------------------------------------------------

/// Whether no phase served the command or failed.
pub open spec fn all_ready(outcomes: Seq<PhaseOutcome>) -> bool {
    forall|i: int| 0 <= i < outcomes.len() ==> #[trigger] outcomes[i] == PhaseOutcome::Ready
}

/// The phases that a run goes through while nothing serves the command: one that writes a
/// snapshot stays in the foreground, and any other takes the lock and then waits for a
/// detached owner; behind its last phase it has failed.
pub proof fn lemma_phases_of_a_run(
    phase: RunPhase,
    outcomes: Seq<PhaseOutcome>,
    writes_snapshot: bool,
)
    requires
        phase is AskExisting || phase is FreshSlot,
        all_ready(outcomes),
    ensures
        after_phases(phase, outcomes, writes_snapshot) == (if outcomes.len() == 0 {
            phase
        } else if outcomes.len() == 1 {
            if writes_snapshot {
                RunPhase::Foreground
            } else {
                RunPhase::OwnerStart
            }
        } else if outcomes.len() == 2 && !writes_snapshot {
            RunPhase::AwaitOwner
        } else {
            RunPhase::Failed
        }),
    decreases outcomes.len(),
{
    if outcomes.len() > 0 {
        let front = outcomes.drop_last();
        assert forall|i: int| 0 <= i < front.len() implies #[trigger] front[i]
            == PhaseOutcome::Ready by {
            assert(outcomes[i] == front[i]);
        }
        lemma_phases_of_a_run(phase, front, writes_snapshot);
        assert(outcomes[outcomes.len() - 1] == PhaseOutcome::Ready);
    }
}

/// A run has the status with which its command was first served, wherever that was, and
/// fails with the first phase that fails; what would come later changes nothing.
pub proof fn lemma_result_of_a_run(
    phase: RunPhase,
    before: Seq<PhaseOutcome>,
    status: i32,
    later: Seq<PhaseOutcome>,
    writes_snapshot: bool,
)
    requires
        phases_left(after_phases(phase, before, writes_snapshot)) > 0,
    ensures
        after_phases(phase, before.push(PhaseOutcome::Served(status)) + later, writes_snapshot)
            == RunPhase::Done(status),
        after_phases(phase, before.push(PhaseOutcome::Error) + later, writes_snapshot)
            == RunPhase::Failed,
    decreases later.len(),
{
    let served = before.push(PhaseOutcome::Served(status));
    let failed = before.push(PhaseOutcome::Error);
    assert(served.drop_last() =~= before);
    assert(failed.drop_last() =~= before);
    if later.len() == 0 {
        assert(served + later =~= served);
        assert(failed + later =~= failed);
    } else {
        lemma_result_of_a_run(phase, before, status, later.drop_last(), writes_snapshot);
        assert((served + later).drop_last() =~= served + later.drop_last());
        assert((failed + later).drop_last() =~= failed + later.drop_last());
    }
}

/// A running VM is asked exactly where nothing is forwarded and no fresh one is wanted.
pub proof fn lemma_who_is_asked(config: RunConfig, fresh: bool)
    ensures
        (first_phase(config, fresh) is AskExisting) <==> (config.forwards@.len() == 0 && !fresh),
        (first_phase(config, fresh) is FreshSlot) <==> (config.forwards@.len() > 0 || fresh),
{
}

/// The phases of a run in the foreground while nothing serves the command. With forwards,
/// or where a fresh VM is wanted, no other owner is asked once the lock is taken.
pub proof fn lemma_phases_of_the_foreground(
    outcomes: Seq<PhaseOutcome>,
    fresh: bool,
    has_forwards: bool,
)
    requires
        all_ready(outcomes),
    ensures
        ({
            let slot = if fresh {
                1int
            } else {
                0int
            };
            let ask = if fresh || has_forwards {
                0int
            } else {
                1int
            };
            let n = outcomes.len() as int;
            after_foreground(outcomes, fresh, has_forwards) == (if n < slot {
                ForegroundPhase::FreshSlot
            } else if n == slot {
                if has_forwards {
                    ForegroundPhase::Lock
                } else {
                    ForegroundPhase::LockOrClient
                }
            } else if n == slot + ask && ask == 1 {
                ForegroundPhase::AskExisting
            } else if n == slot + ask + 1 {
                ForegroundPhase::Start
            } else if n == slot + ask + 2 {
                ForegroundPhase::Client
            } else {
                ForegroundPhase::Failed
            })
        }),
    decreases outcomes.len(),
{
    if outcomes.len() > 0 {
        let front = outcomes.drop_last();
        assert forall|i: int| 0 <= i < front.len() implies #[trigger] front[i]
            == PhaseOutcome::Ready by {
            assert(outcomes[i] == front[i]);
        }
        lemma_phases_of_the_foreground(front, fresh, has_forwards);
        assert(outcomes[outcomes.len() - 1] == PhaseOutcome::Ready);
    }
}

/// A run in the foreground has the status with which its command was first served, and
/// fails with the first phase that fails.
pub proof fn lemma_result_of_the_foreground(
    before: Seq<PhaseOutcome>,
    status: i32,
    later: Seq<PhaseOutcome>,
    fresh: bool,
    has_forwards: bool,
)
    requires
        !(after_foreground(before, fresh, has_forwards) is Done),
        !(after_foreground(before, fresh, has_forwards) is Failed),
    ensures
        after_foreground(
            before.push(PhaseOutcome::Served(status)) + later,
            fresh,
            has_forwards,
        ) == ForegroundPhase::Done(status),
        after_foreground(before.push(PhaseOutcome::Error) + later, fresh, has_forwards)
            == ForegroundPhase::Failed,
    decreases later.len(),
{
    let served = before.push(PhaseOutcome::Served(status));
    let failed = before.push(PhaseOutcome::Error);
    assert(served.drop_last() =~= before);
    assert(failed.drop_last() =~= before);
    if later.len() == 0 {
        assert(served + later =~= served);
        assert(failed + later =~= failed);
    } else {
        lemma_result_of_the_foreground(before, status, later.drop_last(), fresh, has_forwards);
        assert((served + later).drop_last() =~= served + later.drop_last());
        assert((failed + later).drop_last() =~= failed + later.drop_last());
    }
}

/// Waiting for an owner ends when two minutes are over, when the user interrupts it, when
/// the owner answers, and when it ended; only its status 86 says that the snapshot was
/// refused.
pub proof fn lemma_waiting_for_an_owner(
    elapsed_ms: u64,
    interrupted: bool,
    connect: ConnectSeen,
    exit: Option<OwnerExit>,
)
    ensures
        (await_response(elapsed_ms, interrupted, connect, exit) is TimedOut) <==> elapsed_ms
            >= 120000,
        elapsed_ms < 120000 ==> ((await_response(elapsed_ms, interrupted, connect, exit) is Interrupted)
            <==> interrupted),
        await_response(elapsed_ms, interrupted, connect, exit) matches AwaitOwner::Interrupted(s)
            ==> s == 130,
        (await_response(elapsed_ms, interrupted, connect, exit) is Session) <==> (elapsed_ms
            < 120000 && !interrupted && connect is Connected),
        (await_response(elapsed_ms, interrupted, connect, exit) is Mismatch) <==> (elapsed_ms
            < 120000 && !interrupted && connect is Mismatch),
        (await_response(elapsed_ms, interrupted, connect, exit) is Wait) <==> (elapsed_ms < 120000
            && !interrupted && connect is NotReady && exit is None),
        (await_response(elapsed_ms, interrupted, connect, exit) is RestoreRefused) <==> (elapsed_ms
            < 120000 && !interrupted && connect is NotReady && (exit matches Some(e) && e.code
            == Some(86i32))),
{
}

/// The end of a log is at most as long as asked for, and is all of it or exactly that
/// long; the log ends with it.
pub proof fn lemma_tail(log: Seq<u8>, size: nat)
    ensures
        tail(log, size).len() == (if log.len() < size {
            log.len()
        } else {
            size
        }),
        exists|front: Seq<u8>| log == #[trigger] (front + tail(log, size)),
{
    let front = log.take(log.len() - tail(log, size).len());
    assert(log =~= front + tail(log, size));
}

/// The last lines of a text are its last ones in their order, each behind the same word.
pub proof fn lemma_tail_lines(end: Seq<char>, count: nat)
    ensures
        tail_lines(end, count).len() == (if text::lines_of(end).len() < count {
            text::lines_of(end).len()
        } else {
            count
        }),
        forall|i: int|
            0 <= i < tail_lines(end, count).len() ==> #[trigger] tail_lines(end, count)[i]
                == "console.tail "@ + text::trimmed_end(
                text::lines_of(end)[text::lines_of(end).len() - tail_lines(end, count).len() + i],
            ),
{
}

/// What a file takes on disk is 512 bytes for each of its blocks, as far as that can be
/// counted.
pub proof fn lemma_allocated(blocks: u64)
    ensures
        allocated(blocks) <= u64::MAX,
        allocated(blocks) <= 512 * blocks,
        512 * blocks <= u64::MAX ==> allocated(blocks) == 512 * blocks,
        512 * blocks > u64::MAX ==> allocated(blocks) == u64::MAX,
{
}

/// A file's summary has seven words: what it is called, where it is, of what kind, its
/// size, its blocks, what they take, and when it was changed.
#[verifier::spinoff_prover]
#[verifier::rlimit(40)]
pub proof fn lemma_summary_has_seven_words(label: Seq<char>, path: Seq<char>, f: FileSummary)
    requires
        !label.contains(' '),
        !path.contains(' '),
    ensures
        text::split_on(summary_text(label, path, Ok(f)), ' ') == seq![
            label,
            "path="@ + path,
            match f.kind {
                FileKind::Dir => "kind=dir"@,
                FileKind::File => "kind=file"@,
                FileKind::Other => "kind=other"@,
            },
            "size="@ + text::dec(f.size as nat),
            "blocks="@ + text::dec(f.blocks as nat),
            "allocated_bytes="@ + text::dec(
                if 512 * f.blocks <= u64::MAX {
                    (512 * f.blocks) as nat
                } else {
                    u64::MAX as nat
                },
            ),
            match f.modified_unix {
                Some(secs) => "modified_unix="@ + text::dec(secs as nat),
                None => "modified_unix=unknown"@,
            },
        ],
{
    reveal_strlit(" path=");
    reveal_strlit("path=");
    reveal_strlit(" kind=");
    reveal_strlit("kind=dir");
    reveal_strlit("kind=file");
    reveal_strlit("kind=other");
    reveal_strlit("dir");
    reveal_strlit("file");
    reveal_strlit("other");
    reveal_strlit(" size=");
    reveal_strlit("size=");
    reveal_strlit(" blocks=");
    reveal_strlit("blocks=");
    reveal_strlit(" allocated_bytes=");
    reveal_strlit("allocated_bytes=");
    reveal_strlit(" modified_unix=");
    reveal_strlit("modified_unix=");
    reveal_strlit("modified_unix=unknown");
    reveal_strlit("unknown");
    let s = seq![' '];
    let w1 = "path="@ + path;
    let w2 = match f.kind {
        FileKind::Dir => "kind=dir"@,
        FileKind::File => "kind=file"@,
        FileKind::Other => "kind=other"@,
    };
    let w3 = "size="@ + text::dec(f.size as nat);
    let w4 = "blocks="@ + text::dec(f.blocks as nat);
    let w5 = "allocated_bytes="@ + text::dec(allocated(f.blocks));
    let w6 = match f.modified_unix {
        Some(secs) => "modified_unix="@ + text::dec(secs as nat),
        None => "modified_unix=unknown"@,
    };
    lemma_word_of_two("path="@, path);
    lemma_word_of_two("size="@, text::dec(f.size as nat));
    lemma_word_of_two("blocks="@, text::dec(f.blocks as nat));
    lemma_word_of_two("allocated_bytes="@, text::dec(allocated(f.blocks)));
    lemma_digits_are_a_word(f.size as nat);
    lemma_digits_are_a_word(f.blocks as nat);
    lemma_digits_are_a_word(allocated(f.blocks));
    if let Some(secs) = f.modified_unix {
        lemma_digits_are_a_word(secs as nat);
        lemma_word_of_two("modified_unix="@, text::dec(secs as nat));
    }
    assert(!w2.contains(' '));
    assert(!w6.contains(' '));
    text::lemma_split_of_one(label, ' ');
    text::lemma_split_of_one(w1, ' ');
    text::lemma_split_of_one(w2, ' ');
    text::lemma_split_of_one(w3, ' ');
    text::lemma_split_of_one(w4, ' ');
    text::lemma_split_of_one(w5, ' ');
    text::lemma_split_of_one(w6, ' ');
    let a1 = label + s + w1;
    let a2 = a1 + s + w2;
    let a3 = a2 + s + w3;
    let a4 = a3 + s + w4;
    let a5 = a4 + s + w5;
    let a6 = a5 + s + w6;
    text::lemma_split_of_two(label, w1, ' ');
    text::lemma_split_of_two(a1, w2, ' ');
    text::lemma_split_of_two(a2, w3, ' ');
    text::lemma_split_of_two(a3, w4, ' ');
    text::lemma_split_of_two(a4, w5, ' ');
    text::lemma_split_of_two(a5, w6, ' ');
    assert(" path="@ =~= s + "path="@);
    assert(" kind="@ + kind_word(f.kind) =~= s + w2);
    assert(" size="@ =~= s + "size="@);
    assert(" blocks="@ =~= s + "blocks="@);
    assert(" allocated_bytes="@ =~= s + "allocated_bytes="@);
    assert(" modified_unix="@ =~= s + "modified_unix="@);
    assert("modified_unix="@ + "unknown"@ =~= "modified_unix=unknown"@);
    let whole = label + " path="@ + path + " kind="@ + kind_word(f.kind);
    assert(whole =~= a2);
    assert(summary_text(label, path, Ok(f)) =~= a6);
    assert(text::split_on(a6, ' ') =~= seq![label, w1, w2, w3, w4, w5, w6]);
}

proof fn lemma_word_of_two(a: Seq<char>, b: Seq<char>)
    ensures
        !a.contains(' ') && !b.contains(' ') ==> !(a + b).contains(' '),
{
    if (a + b).contains(' ') {
        let k = choose|k: int| 0 <= k < (a + b).len() && (a + b)[k] == ' ';
        if k < a.len() {
            assert(a[k] == ' ');
        } else {
            assert(b[k - a.len()] == ' ');
        }
    }
}

proof fn lemma_digits_are_a_word(n: nat)
    ensures
        !text::dec(n).contains(' '),
{
    text::lemma_dec_round_trip(n);
    let d = text::dec(n);
    assert forall|i: int| 0 <= i < d.len() implies d[i] != ' ' by {
        assert(text::is_digit(d[i]));
    }
}

/// A fresh VM is wanted where the user does not reuse one, or where the debug flag says so.
pub proof fn lemma_fresh(debug: Seq<char>, c: char, more: Seq<char>)
    requires
        c == ',' || c == ' ',
    ensures
        is_fresh(false, None),
        !is_fresh(true, None),
        is_fresh(true, Some("nodaemonreuse"@ + seq![c] + more)),
        is_fresh(false, Some(debug)),
        is_fresh(true, Some(debug)) <==> settings::flag_set(Some(debug), "nodaemonreuse"@),
{
    reveal_strlit("nodaemonreuse");
    let word = "nodaemonreuse"@;
    assert(settings::is_word(word));
    settings::lemma_flags_are_words(word, c, more, word);
}

/// A hint is its heading and the text under it without the space at its end.
pub proof fn lemma_hint(heading: Seq<char>, end: Seq<char>)
    ensures
        hint_text(heading, end).len() >= heading.len(),
        hint_text(heading, end).take(heading.len() as int) == heading,
        hint_text(heading, end).skip(heading.len() as int) == text::trimmed_end(end),
{
    assert(hint_text(heading, end).take(heading.len() as int) =~= heading);
    assert(hint_text(heading, end).skip(heading.len() as int) =~= text::trimmed_end(end));
}

} // verus!
