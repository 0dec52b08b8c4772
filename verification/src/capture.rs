//! Capturing a snapshot: waiting for the guest, the handshake with it, and the steps that
//! make a snapshot and publish it.
use vstd::prelude::*;

use crate::bytes;
use crate::deterministic;
use crate::paths;
use crate::snapshots;
use crate::text;

verus! {

// ---------------------------------------------------------------------------
// Waiting for a connection
// ---------------------------------------------------------------------------

/// How long one look for a connection lasts at most, in milliseconds.
pub const ACCEPT_POLL_MS: u64 = 250;

/// How long the guest's agent may take to say hello, in milliseconds.
pub const AGENT_HELLO_TIMEOUT_MS: u64 = 2000;

/// What came of looking for a connection.
#[derive(Debug, PartialEq, Eq)]
pub enum AcceptSeen {
    /// Somebody connected, but by then the VM had failed, with this error.
    VmFailed(String),
    /// Nobody connected while looking.
    Nobody,
    /// The look was interrupted, or the connection was gone again.
    Again,
    Connected,
    /// Looking failed.
    PollFailed(String),
    /// Somebody connected, but the connection could not be taken.
    AcceptFailed(String),
}

/// What to do next about a connection.
#[derive(Debug, PartialEq, Eq)]
pub enum AcceptStep {
    /// Look again, for this many milliseconds at most.
    Poll(u64),
    /// Use the connection.
    Use,
    Fail(String),
}

/// How long the next look lasts; none when the time is up.
pub open spec fn next_look(elapsed_ms: u64, timeout_ms: u64) -> Option<u64> {
    if elapsed_ms >= timeout_ms {
        None
    } else if timeout_ms - elapsed_ms < ACCEPT_POLL_MS {
        Some((timeout_ms - elapsed_ms) as u64)
    } else {
        Some(ACCEPT_POLL_MS)
    }
}

/// Decides what to do about a connection before the first look, and after each.
/// `vm_error` is the error that the VM has failed with by now; it counts only while there is
/// time left. `last_error` is the failure to take a connection that is remembered: it is
/// given as the reason when the time is up.
pub fn accept_step(
    elapsed_ms: u64,
    timeout_ms: u64,
    vm_error: Option<String>,
    seen: Option<AcceptSeen>,
    last_error: &mut Option<String>,
) -> (r: AcceptStep)
    ensures
        match seen {
            Some(AcceptSeen::AcceptFailed(e)) => *final(last_error) == Some(e),
            _ => *final(last_error) == *old(last_error),
        },
        match seen {
            Some(AcceptSeen::VmFailed(e)) => r matches AcceptStep::Fail(m) && m@
                == "libkrun start failed: "@ + e@,
            Some(AcceptSeen::PollFailed(e)) => r matches AcceptStep::Fail(m) && m@
                == "poll unix listener: "@ + e@,
            Some(AcceptSeen::Connected) => r is Use,
            _ => match (next_look(elapsed_ms, timeout_ms), vm_error) {
                (Some(_), Some(e)) => r matches AcceptStep::Fail(m) && m@
                    == "libkrun start failed: "@ + e@,
                (Some(ms), None) => r == AcceptStep::Poll(ms),
                (None, _) => r matches AcceptStep::Fail(m) && m@ == (match *final(last_error) {
                    Some(e) => "timed out waiting for lnx-agent"@ + ": "@ + e@,
                    None => "timed out waiting for lnx-agent"@,
                }),
            },
        },
{
    match seen {
        Some(AcceptSeen::VmFailed(e)) => return vm_failed(e.as_str()),
        Some(AcceptSeen::PollFailed(e)) => {
            let mut m: String = "poll unix listener: ".to_owned();
            m.append(e.as_str());
            return AcceptStep::Fail(m);
        },
        Some(AcceptSeen::Connected) => return AcceptStep::Use,
        Some(AcceptSeen::AcceptFailed(e)) => {
            *last_error = Some(e);
        },
        _ => {},
    }
    if elapsed_ms < timeout_ms {
        match vm_error {
            Some(e) => return vm_failed(e.as_str()),
            None => {},
        }
        let left: u64 = timeout_ms - elapsed_ms;
        if left < ACCEPT_POLL_MS {
            AcceptStep::Poll(left)
        } else {
            AcceptStep::Poll(ACCEPT_POLL_MS)
        }
    } else {
        let mut m: String = "timed out waiting for lnx-agent".to_owned();
        match &*last_error {
            Some(e) => {
                m.append(": ");
                m.append(e.as_str());
            },
            None => {},
        }
        AcceptStep::Fail(m)
    }
}

fn vm_failed(error: &str) -> (r: AcceptStep)
    ensures
        r matches AcceptStep::Fail(m) && m@ == "libkrun start failed: "@ + error@,
{
    let mut m: String = "libkrun start failed: ".to_owned();
    m.append(error);
    AcceptStep::Fail(m)
}

/// How long the agent may take to say hello: never longer than the time that is left.
pub fn hello_timeout(elapsed_ms: u64, timeout_ms: u64) -> (ms: u64)
    ensures
        ms == (if elapsed_ms >= timeout_ms {
            0
        } else if timeout_ms - elapsed_ms < AGENT_HELLO_TIMEOUT_MS {
            timeout_ms - elapsed_ms
        } else {
            AGENT_HELLO_TIMEOUT_MS as int
        }),
        ms <= 2000,
        elapsed_ms < timeout_ms ==> ms > 0 && elapsed_ms + ms <= timeout_ms,
{
    if elapsed_ms >= timeout_ms {
        0
    } else if timeout_ms - elapsed_ms < AGENT_HELLO_TIMEOUT_MS {
        timeout_ms - elapsed_ms
    } else {
        AGENT_HELLO_TIMEOUT_MS
    }
}

// ---------------------------------------------------------------------------
// The handshake
// ---------------------------------------------------------------------------

/// The kind of frame that asks for a snapshot.
pub const FRAME_SNAPSHOT: u8 = 75;

/// The byte by which the guest says that it is ready.
pub const SNAPSHOT_READY: u8 = 82;

/// Why the guest's request for a snapshot is not served.
#[derive(Clone, Copy, PartialEq, Eq, Structural, Debug)]
pub enum HandshakeError {
    BadRequest,
    BadReady,
}

impl HandshakeError {
    /// The message shown to the user.
    pub fn message(&self) -> (m: &'static str)
        ensures
            m@ == (match *self {
                HandshakeError::BadRequest => "bad snapshot request"@,
                HandshakeError::BadReady => "bad snapshot ready"@,
            }),
    {
        match self {
            HandshakeError::BadRequest => "bad snapshot request",
            HandshakeError::BadReady => "bad snapshot ready",
        }
    }
}

/// Checks the guest's request for a snapshot: the kind of frame and a length of zero.
pub fn snapshot_request(frame: &[u8]) -> (r: Result<(), HandshakeError>)
    requires
        frame@.len() == 5,
    ensures
        r == (if frame@[0] == FRAME_SNAPSHOT && bytes::be_value(frame@.skip(1)) == 0 {
            Ok(())
        } else {
            Err(HandshakeError::BadRequest)
        }),
{
    let field: Vec<u8> = bytes::part(frame, 1, 5);
    assert(field@ =~= frame@.skip(1));
    let len: u64 = bytes::read_be(field.as_slice());
    if frame[0] == FRAME_SNAPSHOT && len == 0 {
        Ok(())
    } else {
        Err(HandshakeError::BadRequest)
    }
}

/// What came of waiting for the guest's ready byte.
#[derive(Debug, PartialEq, Eq)]
pub enum ReadyRead {
    Byte(u8),
    /// The guest has not said anything, or has gone to connect anew; how reading ended.
    Gone(String),
    Failed(String),
}

/// What to do about the guest's ready byte.
#[derive(Debug, PartialEq, Eq)]
pub enum ReadyStep {
    /// Capture the snapshot.
    Capture,
    /// Take the guest's new connection and read the byte there.
    Reconnect,
    Refuse(HandshakeError),
    Fail(String),
}

/// Decides what to do about the guest's ready byte. Where the guest connects anew, it
/// gets one more chance.
pub fn ready_step(read: ReadyRead, reconnected: bool) -> (r: ReadyStep)
    ensures
        match read {
            ReadyRead::Byte(b) => if b == SNAPSHOT_READY {
                r is Capture
            } else {
                r == ReadyStep::Refuse(HandshakeError::BadReady)
            },
            ReadyRead::Gone(e) => if reconnected {
                r matches ReadyStep::Fail(m) && m@ == "read snapshot ready reconnect: "@ + e@
            } else {
                r is Reconnect
            },
            ReadyRead::Failed(e) => r matches ReadyStep::Fail(m) && m@ == (if reconnected {
                "read snapshot ready reconnect: "@
            } else {
                "read snapshot ready: "@
            }) + e@,
        },
        r is Capture <==> read == ReadyRead::Byte(82),
        r is Reconnect <==> read is Gone && !reconnected,
        r is Refuse <==> (read matches ReadyRead::Byte(b) && b != 82),
{
    match read {
        ReadyRead::Byte(b) => if b == SNAPSHOT_READY {
            ReadyStep::Capture
        } else {
            ReadyStep::Refuse(HandshakeError::BadReady)
        },
        ReadyRead::Gone(e) => if reconnected {
            let mut m: String = "read snapshot ready reconnect: ".to_owned();
            m.append(e.as_str());
            ReadyStep::Fail(m)
        } else {
            ReadyStep::Reconnect
        },
        ReadyRead::Failed(e) => {
            let mut m: String = if reconnected {
                "read snapshot ready reconnect: ".to_owned()
            } else {
                "read snapshot ready: ".to_owned()
            };
            m.append(e.as_str());
            ReadyStep::Fail(m)
        },
    }
}

// ---------------------------------------------------------------------------
// A restored guest that still waits
// ---------------------------------------------------------------------------

/// What came of looking for the connection of a restored guest.
#[derive(Clone, Copy, PartialEq, Eq, Structural, Debug)]
pub enum WaitSeen {
    Connected,
    Nobody,
    Interrupted,
    Failed,
}

/// What to do next about a restored guest that waits for its snapshot to be taken.
#[derive(Clone, Copy, PartialEq, Eq, Structural, Debug)]
pub enum UnblockStep {
    /// The guest went on by itself.
    Cancelled,
    /// Read what the guest sends, whatever it is, and close the connection: that lets the
    /// guest go on.
    ReadAndClose,
    /// Look again after a short while.
    Sleep,
    /// Look again at once.
    Again,
    Fail,
    TimedOut,
}

/// Decides what to do next about a restored guest that waits for its snapshot to be
/// taken. `seen` counts only where the time is not up and the guest has not gone on.
pub fn unblock_step(elapsed_ms: u64, timeout_ms: u64, cancelled: bool, seen: WaitSeen) -> (r:
    UnblockStep)
    ensures
        r == (if elapsed_ms >= timeout_ms {
            UnblockStep::TimedOut
        } else if cancelled {
            UnblockStep::Cancelled
        } else {
            match seen {
                WaitSeen::Connected => UnblockStep::ReadAndClose,
                WaitSeen::Nobody => UnblockStep::Sleep,
                WaitSeen::Interrupted => UnblockStep::Again,
                WaitSeen::Failed => UnblockStep::Fail,
            }
        }),
        r is TimedOut <==> elapsed_ms >= timeout_ms,
        r is Cancelled <==> elapsed_ms < timeout_ms && cancelled,
        r is ReadAndClose ==> seen is Connected && !cancelled,
        r is Fail ==> seen is Failed && !cancelled,
{
    if elapsed_ms >= timeout_ms {
        UnblockStep::TimedOut
    } else if cancelled {
        UnblockStep::Cancelled
    } else {
        match seen {
            WaitSeen::Connected => UnblockStep::ReadAndClose,
            WaitSeen::Nobody => UnblockStep::Sleep,
            WaitSeen::Interrupted => UnblockStep::Again,
            WaitSeen::Failed => UnblockStep::Fail,
        }
    }
}

/// What came of reading from a restored guest that waits.
#[derive(Debug, PartialEq, Eq)]
pub enum GuestRead {
    Read(u8),
    /// The guest sent nothing; the kind of failure is named.
    Unavailable(String),
    Failed(String),
}

/// What the run log says about the frame of a restored guest that waits. The length is
/// what came of reading it, where a frame began.
pub open spec fn frame_line(kind: GuestRead, len: Result<u32, String>) -> Seq<char> {
    match kind {
        GuestRead::Read(t) => match len {
            Ok(n) => "snapshot.restore.unblock.frame type="@ + text::dec(t as nat) + " len="@
                + text::dec(n as nat),
            Err(e) => "snapshot.restore.unblock.frame_len_error "@ + e@,
        },
        GuestRead::Unavailable(k) => "snapshot.restore.unblock.frame_unavailable kind="@ + k@,
        GuestRead::Failed(e) => "snapshot.restore.unblock.frame_error "@ + e@,
    }
}

/// What the run log says about the frame of a restored guest that waits.
pub fn unblock_frame_line(kind: &GuestRead, len: &Result<u32, String>) -> (s: String)
    ensures
        s@ == frame_line(*kind, *len),
{
    match kind {
        GuestRead::Read(t) => match len {
            Ok(n) => {
                let mut s: String = "snapshot.restore.unblock.frame type=".to_owned();
                text::push_dec(&mut s, *t as u128);
                s.append(" len=");
                text::push_dec(&mut s, *n as u128);
                s
            },
            Err(e) => {
                let mut s: String = "snapshot.restore.unblock.frame_len_error ".to_owned();
                s.append(e.as_str());
                s
            },
        },
        GuestRead::Unavailable(k) => {
            let mut s: String = "snapshot.restore.unblock.frame_unavailable kind=".to_owned();
            s.append(k.as_str());
            s
        },
        GuestRead::Failed(e) => {
            let mut s: String = "snapshot.restore.unblock.frame_error ".to_owned();
            s.append(e.as_str());
            s
        },
    }
}

/// What the run log says about the ready byte of a restored guest that waits.
pub fn unblock_ready_line(ready: &GuestRead) -> (s: String)
    ensures
        s@ == (match *ready {
            GuestRead::Read(b) => "snapshot.restore.unblock.ready byte="@ + text::dec(b as nat),
            GuestRead::Unavailable(k) => "snapshot.restore.unblock.ready_unavailable kind="@ + k@,
            GuestRead::Failed(e) => "snapshot.restore.unblock.ready_error "@ + e@,
        }),
{
    match ready {
        GuestRead::Read(b) => {
            let mut s: String = "snapshot.restore.unblock.ready byte=".to_owned();
            text::push_dec(&mut s, *b as u128);
            s
        },
        GuestRead::Unavailable(k) => {
            let mut s: String = "snapshot.restore.unblock.ready_unavailable kind=".to_owned();
            s.append(k.as_str());
            s
        },
        GuestRead::Failed(e) => {
            let mut s: String = "snapshot.restore.unblock.ready_error ".to_owned();
            s.append(e.as_str());
            s
        },
    }
}

// ---------------------------------------------------------------------------
// Making a snapshot
// ---------------------------------------------------------------------------

/// A step of capturing a snapshot. The snapshot is made beside the published one and
/// takes its place in the last step.
#[derive(Clone, Copy, PartialEq, Eq, Structural, Debug)]
pub enum CaptureStep {
    /// Clean up after a publication that was interrupted.
    CleanUp,
    /// Remove what is left of the next snapshot.
    RemoveNext,
    /// Start from the snapshot that the VM was restored from, or the published one.
    Seed,
    /// Make sure that the clock's state is on disk.
    EnsureClock,
    /// Have the hypervisor write memory and state, and copy the disk.
    Capture,
    /// Look for damage on the disk; where there is any, the next snapshot is removed.
    CheckDisk,
    /// Set the disk's time to that of the memory.
    AlignDiskTime,
    CopyStamps,
    CopyShareState,
    WriteManifest,
    Publish,
}

/// The steps of capturing a snapshot; a full one starts from nothing.
pub open spec fn capture_steps(force_full: bool) -> Seq<CaptureStep> {
    let before = seq![CaptureStep::CleanUp, CaptureStep::RemoveNext];
    let seed = if force_full {
        Seq::empty()
    } else {
        seq![CaptureStep::Seed]
    };
    before + seed + seq![
        CaptureStep::EnsureClock,
        CaptureStep::Capture,
        CaptureStep::CheckDisk,
        CaptureStep::AlignDiskTime,
        CaptureStep::CopyStamps,
        CaptureStep::CopyShareState,
        CaptureStep::WriteManifest,
        CaptureStep::Publish,
    ]
}

/// Plans the capture of a snapshot. The first step that fails ends it.
pub fn capture_plan(force_full: bool) -> (r: Vec<CaptureStep>)
    ensures
        r@ == capture_steps(force_full),
{
    let mut r: Vec<CaptureStep> = Vec::new();
    r.push(CaptureStep::CleanUp);
    r.push(CaptureStep::RemoveNext);
    if !force_full {
        r.push(CaptureStep::Seed);
    }
    r.push(CaptureStep::EnsureClock);
    r.push(CaptureStep::Capture);
    r.push(CaptureStep::CheckDisk);
    r.push(CaptureStep::AlignDiskTime);
    r.push(CaptureStep::CopyStamps);
    r.push(CaptureStep::CopyShareState);
    r.push(CaptureStep::WriteManifest);
    r.push(CaptureStep::Publish);
    assert(r@ =~= capture_steps(force_full));
    r
}

/// The steps of making a checkpoint of a running VM: those of a snapshot, with nothing to
/// clean up and nothing to publish.
pub open spec fn checkpoint_steps() -> Seq<CaptureStep> {
    seq![
        CaptureStep::Seed,
        CaptureStep::EnsureClock,
        CaptureStep::Capture,
        CaptureStep::CheckDisk,
        CaptureStep::AlignDiskTime,
        CaptureStep::CopyStamps,
        CaptureStep::CopyShareState,
        CaptureStep::WriteManifest,
    ]
}

/// Plans a checkpoint of a running VM. The first step that fails ends it.
pub fn checkpoint_plan() -> (r: Vec<CaptureStep>)
    ensures
        r@ == checkpoint_steps(),
{
    let mut r: Vec<CaptureStep> = Vec::new();
    r.push(CaptureStep::Seed);
    r.push(CaptureStep::EnsureClock);
    r.push(CaptureStep::Capture);
    r.push(CaptureStep::CheckDisk);
    r.push(CaptureStep::AlignDiskTime);
    r.push(CaptureStep::CopyStamps);
    r.push(CaptureStep::CopyShareState);
    r.push(CaptureStep::WriteManifest);
    assert(r@ =~= checkpoint_steps());
    r
}

/// A checkpoint holds what a snapshot does: its steps are those of a snapshot, from the
/// seed on and up to the publication.
pub proof fn lemma_checkpoint_is_an_unpublished_snapshot()
    ensures
        capture_steps(false) == seq![CaptureStep::CleanUp, CaptureStep::RemoveNext]
            + checkpoint_steps() + seq![CaptureStep::Publish],
{
    assert(capture_steps(false) =~= seq![CaptureStep::CleanUp, CaptureStep::RemoveNext]
        + checkpoint_steps() + seq![CaptureStep::Publish]);
}

/// Whether a failed step removes what was made of the next snapshot.
pub fn removes_next(failed: CaptureStep) -> (r: bool)
    ensures
        r == (failed == CaptureStep::CheckDisk),
{
    match failed {
        CaptureStep::CheckDisk => true,
        _ => false,
    }
}

/// A snapshot is published only when every other step has succeeded: publishing is the
/// last step, comes once, and the disk was checked and its time aligned before it.
pub proof fn lemma_publish_comes_last(force_full: bool)
    ensures
        ({
            let steps = capture_steps(force_full);
            let n = steps.len() as int;
            &&& steps[n - 1] == CaptureStep::Publish
            &&& forall|i: int| 0 <= i < n - 1 ==> #[trigger] steps[i] != CaptureStep::Publish
            &&& steps.take(n - 1).contains(CaptureStep::CheckDisk)
            &&& steps.take(n - 1).contains(CaptureStep::AlignDiskTime)
            &&& steps.take(n - 1).contains(CaptureStep::WriteManifest)
        }),
{
    let steps = capture_steps(force_full);
    let n = steps.len() as int;
    let front = steps.take(n - 1);
    assert(front[n - 6] == CaptureStep::CheckDisk);
    assert(front[n - 5] == CaptureStep::AlignDiskTime);
    assert(front[n - 2] == CaptureStep::WriteManifest);
}

/// How a stamp travels with a snapshot.
#[derive(Debug, PartialEq, Eq)]
pub enum StampCopy {
    /// Copy the file.
    Copy,
    /// Write these bytes.
    Write(Vec<u8>),
    /// Write the clock that the VM started with.
    WriteClock,
    /// There is nothing to copy.
    Skip,
    Fail(String),
}

/// What came of reading the file of the clock's state.
#[derive(Debug, PartialEq, Eq)]
pub enum ClockFile {
    Read(Vec<u8>),
    Missing,
    Failed(String),
}

/// Decides how the clock's state travels with a snapshot: in deterministic mode as it is
/// on disk, or else as the VM started with it; otherwise only where there is a file.
pub fn clock_stamp_copy(deterministic: bool, file: ClockFile, path: &str) -> (r: StampCopy)
    ensures
        match (deterministic, file) {
            (true, ClockFile::Read(b)) => r == StampCopy::Write(b),
            (true, ClockFile::Missing) => r is WriteClock,
            (true, ClockFile::Failed(e)) => r matches StampCopy::Fail(m) && m@ == "read "@ + path@
                + ": "@ + e@,
            (false, ClockFile::Missing) => r is Skip,
            (false, _) => r is Copy,
        },
        r is WriteClock <==> deterministic && file is Missing,
        r is Skip <==> !deterministic && file is Missing,
        r is Fail <==> deterministic && file is Failed,
{
    if deterministic {
        match file {
            ClockFile::Read(b) => StampCopy::Write(b),
            ClockFile::Missing => StampCopy::WriteClock,
            ClockFile::Failed(e) => {
                let mut m: String = "read ".to_owned();
                m.append(path);
                m.append(": ");
                m.append(e.as_str());
                StampCopy::Fail(m)
            },
        }
    } else {
        match file {
            ClockFile::Missing => StampCopy::Skip,
            _ => StampCopy::Copy,
        }
    }
}

/// The stamps that travel with a snapshot, beside that of the guest's agent: they lie in
/// the same directory.
pub fn snapshot_stamps(run_dir: &str) -> (r: Vec<String>)
    ensures
        text::views(r@) == seq![
            paths::joined(run_dir@, "initramfs.stamp"@),
            paths::joined(run_dir@, snapshots::LAUNCH_METADATA@),
            paths::joined(run_dir@, "deterministic.stamp"@),
            paths::joined(run_dir@, deterministic::DETERMINISTIC_CLOCK_STATE@),
        ],
{
    let mut r: Vec<String> = Vec::new();
    r.push(paths::join(run_dir, "initramfs.stamp"));
    r.push(paths::join(run_dir, snapshots::LAUNCH_METADATA));
    r.push(paths::join(run_dir, "deterministic.stamp"));
    r.push(paths::join(run_dir, deterministic::DETERMINISTIC_CLOCK_STATE));
    assert(text::views(r@) =~= seq![
        paths::joined(run_dir@, "initramfs.stamp"@),
        paths::joined(run_dir@, snapshots::LAUNCH_METADATA@),
        paths::joined(run_dir@, "deterministic.stamp"@),
        paths::joined(run_dir@, deterministic::DETERMINISTIC_CLOCK_STATE@),
    ]);
    r
}

// ---------------------------------------------------------------------------
// Laws of waiting and capturing
// ---------------------------------------------------------------------------

/// The guest is looked for until the time is up and not longer, a quarter of a second at
/// a time.
pub proof fn lemma_looks(elapsed_ms: u64, timeout_ms: u64)
    ensures
        next_look(elapsed_ms, timeout_ms) is Some <==> elapsed_ms < timeout_ms,
        next_look(elapsed_ms, timeout_ms) matches Some(ms) ==> {
            &&& 0 < ms <= 250
            &&& elapsed_ms + ms <= timeout_ms
            &&& ms == 250 || elapsed_ms + ms == timeout_ms
        },
{
}

/// Whether one step stands somewhere before another.
pub open spec fn comes_before(steps: Seq<CaptureStep>, a: CaptureStep, b: CaptureStep) -> bool {
    exists|i: int, j: int| 0 <= i < j < steps.len() && #[trigger] steps[i] == a && #[trigger] steps[j] == b
}

/// The order in which a snapshot is captured: what is left over goes first, only then is
/// anything written; the disk is checked when it was captured, its time is set when it was
/// found sound, and stamps, shares and manifest follow. No step is made twice, and only a
/// full snapshot starts from nothing.
#[verifier::spinoff_prover]
#[verifier::rlimit(40)]
pub proof fn lemma_order_of_a_capture(force_full: bool)
    ensures
        ({
            let steps = capture_steps(force_full);
            &&& steps.len() == (if force_full {
                10int
            } else {
                11int
            })
            &&& comes_before(steps, CaptureStep::CleanUp, CaptureStep::RemoveNext)
            &&& comes_before(steps, CaptureStep::RemoveNext, CaptureStep::EnsureClock)
            &&& comes_before(steps, CaptureStep::EnsureClock, CaptureStep::Capture)
            &&& comes_before(steps, CaptureStep::Capture, CaptureStep::CheckDisk)
            &&& comes_before(steps, CaptureStep::CheckDisk, CaptureStep::AlignDiskTime)
            &&& comes_before(steps, CaptureStep::AlignDiskTime, CaptureStep::CopyStamps)
            &&& comes_before(steps, CaptureStep::CopyStamps, CaptureStep::CopyShareState)
            &&& comes_before(steps, CaptureStep::CopyShareState, CaptureStep::WriteManifest)
            &&& comes_before(steps, CaptureStep::WriteManifest, CaptureStep::Publish)
            &&& steps.contains(CaptureStep::Seed) <==> !force_full
            &&& !force_full ==> comes_before(steps, CaptureStep::RemoveNext, CaptureStep::Seed)
                && comes_before(steps, CaptureStep::Seed, CaptureStep::EnsureClock)
            &&& forall|i: int, j: int|
                0 <= i < j < steps.len() ==> #[trigger] steps[i] != #[trigger] steps[j]
        }),
{
    let steps = capture_steps(force_full);
    let n = if force_full {
        0int
    } else {
        1int
    };
    assert(steps.len() == 10 + n);
    assert(steps[0] == CaptureStep::CleanUp);
    assert(steps[1] == CaptureStep::RemoveNext);
    assert(n == 1 ==> steps[2] == CaptureStep::Seed);
    assert(steps[2 + n] == CaptureStep::EnsureClock);
    assert(steps[3 + n] == CaptureStep::Capture);
    assert(steps[4 + n] == CaptureStep::CheckDisk);
    assert(steps[5 + n] == CaptureStep::AlignDiskTime);
    assert(steps[6 + n] == CaptureStep::CopyStamps);
    assert(steps[7 + n] == CaptureStep::CopyShareState);
    assert(steps[8 + n] == CaptureStep::WriteManifest);
    assert(steps[9 + n] == CaptureStep::Publish);
    assert forall|i: int, j: int|
        0 <= i < j < steps.len() implies #[trigger] steps[i] != #[trigger] steps[j] by {
        assert(i == 0 || i == 1 || (n == 1 && i == 2) || i == 2 + n || i == 3 + n || i == 4 + n || i
            == 5 + n || i == 6 + n || i == 7 + n || i == 8 + n || i == 9 + n);
        assert(j == 0 || j == 1 || (n == 1 && j == 2) || j == 2 + n || j == 3 + n || j == 4 + n || j
            == 5 + n || j == 6 + n || j == 7 + n || j == 8 + n || j == 9 + n);
    }
    if force_full && steps.contains(CaptureStep::Seed) {
        let k = choose|k: int| 0 <= k < steps.len() && steps[k] == CaptureStep::Seed;
        assert(k == 0 || k == 1 || k == 2 || k == 3 || k == 4 || k == 5 || k == 6 || k == 7 || k
            == 8 || k == 9);
    }
}

/// What a guest sent is logged with its kind and its length.
#[verifier::spinoff_prover]
#[verifier::rlimit(40)]
pub proof fn lemma_frame_line(kind: u8, len: u32)
    ensures
        text::split_on(frame_line(GuestRead::Read(kind), Ok(len)), ' ') == seq![
            "snapshot.restore.unblock.frame"@,
            "type="@ + text::dec(kind as nat),
            "len="@ + text::dec(len as nat),
        ],
{
    let s = seq![' '];
    let a = "snapshot.restore.unblock.frame"@;
    let (x, y) = (text::dec(kind as nat), text::dec(len as nat));
    let b = "type="@ + x;
    let c = "len="@ + y;
    assert("snapshot.restore.unblock.frame type="@ =~= a + s + "type="@ && !a.contains(' ')
        && !"type="@.contains(' ')) by {
        reveal_strlit("snapshot.restore.unblock.frame type=");
        reveal_strlit("snapshot.restore.unblock.frame");
        reveal_strlit("type=");
    }
    assert(" len="@ =~= s + "len="@ && !"len="@.contains(' ')) by {
        reveal_strlit(" len=");
        reveal_strlit("len=");
    }
    text::lemma_dec_round_trip(kind as nat);
    text::lemma_dec_round_trip(len as nat);
    assert forall|i: int| 0 <= i < b.len() implies b[i] != ' ' by {
        if i >= "type="@.len() {
            assert(text::is_digit(x[i - "type="@.len()]));
        } else {
            assert("type="@.contains("type="@[i]));
        }
    }
    assert forall|i: int| 0 <= i < c.len() implies c[i] != ' ' by {
        if i >= "len="@.len() {
            assert(text::is_digit(y[i - "len="@.len()]));
        } else {
            assert("len="@.contains("len="@[i]));
        }
    }
    let front = a + s + b;
    text::lemma_split_of_one(a, ' ');
    text::lemma_split_of_one(b, ' ');
    text::lemma_split_of_one(c, ' ');
    text::lemma_split_of_two(a, b, ' ');
    text::lemma_split_of_two(front, c, ' ');
    assert(frame_line(GuestRead::Read(kind), Ok(len)) =~= front + s + c);
    assert(text::split_on(front + s + c, ' ') =~= seq![a, b, c]);
}

} // verus!
