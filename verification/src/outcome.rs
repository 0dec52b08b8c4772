//! The outcome of an owner's final snapshot: how it is recorded, and when it keeps the
//! instance from being started again.
use vstd::prelude::*;

use crate::logs;
use crate::paths;
use crate::stamps;
use crate::text;

verus! {

/// The file that records the outcome, in the snapshot directory.
pub const FINAL_SNAPSHOT_OUTCOME: &'static str = "final-snapshot.outcome";

/// What an owner reports about its final snapshot.
#[derive(Clone, Copy, PartialEq, Eq, Structural, Debug)]
pub enum OutcomeStatus {
    /// The snapshot has begun.
    Pending,
    Success,
    /// The user acknowledged a failure.
    Cleared,
    Error,
}

/// The word for a status.
pub open spec fn status_word(status: OutcomeStatus) -> Seq<char> {
    match status {
        OutcomeStatus::Pending => "pending"@,
        OutcomeStatus::Success => "success"@,
        OutcomeStatus::Cleared => "cleared"@,
        OutcomeStatus::Error => "error"@,
    }
}

/// The word for a status.
pub fn status_name(status: OutcomeStatus) -> (s: &'static str)
    ensures
        s@ == status_word(status),
{
    match status {
        OutcomeStatus::Pending => "pending",
        OutcomeStatus::Success => "success",
        OutcomeStatus::Cleared => "cleared",
        OutcomeStatus::Error => "error",
    }
}

/// The fields of the outcome's file.
pub open spec fn outcome_fields(
    pid: u32,
    status: OutcomeStatus,
    error: Option<Seq<char>>,
) -> Seq<(Seq<char>, Seq<char>)> {
    let head = seq![
        ("version"@, "1"@),
        ("pid"@, text::dec(pid as nat)),
        ("status"@, status_word(status)),
    ];
    match error {
        Some(e) => head.push(("error"@, logs::log_word(e))),
        None => head,
    }
}

/// Writes the outcome's file. The error becomes one word, so that it keeps to its line.
pub fn final_snapshot_outcome_content(pid: u32, status: OutcomeStatus, error: Option<&str>) -> (s:
    String)
    ensures
        s@ == stamps::stamp_text(
            outcome_fields(
                pid,
                status,
                match error {
                    Some(e) => Some(e@),
                    None => None,
                },
            ),
        ),
{
    let mut pairs: Vec<(&str, String)> = Vec::new();
    pairs.push(("version", "1".to_owned()));
    pairs.push(("pid", text::decimal(pid as u128)));
    pairs.push(("status", status_name(status).to_owned()));
    if let Some(e) = error {
        pairs.push(("error", logs::log_value(e)));
    }
    assert(stamps::borrowed_pairs(pairs@) =~= outcome_fields(
        pid,
        status,
        match error {
            Some(e) => Some(e@),
            None => None,
        },
    ));
    stamps::write_stamp(&pairs)
}

/// A recorded outcome.
#[derive(Debug, PartialEq, Eq)]
pub struct FinalSnapshotOutcome {
    pub pid: u32,
    pub pending: bool,
    pub succeeded: bool,
    pub error: Option<String>,
}

/// What a recorded outcome says.
pub struct OutcomeView {
    pub pid: int,
    pub pending: bool,
    pub succeeded: bool,
    pub error: Option<Seq<char>>,
}

impl FinalSnapshotOutcome {
    pub open spec fn view(self) -> OutcomeView {
        OutcomeView {
            pid: self.pid as int,
            pending: self.pending,
            succeeded: self.succeeded,
            error: match self.error {
                Some(e) => Some(e@),
                None => None,
            },
        }
    }
}

/// Why the outcome's file cannot be read.
#[derive(Clone, Copy, PartialEq, Eq, Structural, Debug)]
pub enum OutcomeFormatError {
    InvalidPid,
    InvalidStatus,
}

/// The outcome that fields record.
pub open spec fn outcome_of_fields(fields: Map<Seq<char>, Seq<char>>) -> Result<
    OutcomeView,
    OutcomeFormatError,
> {
    let pid = if fields.dom().contains("pid"@) {
        text::parsed(fields["pid"@], u32::MAX as nat)
    } else {
        None
    };
    let has_status = fields.dom().contains("status"@);
    let status = fields["status"@];
    let error = if fields.dom().contains("error"@) {
        Some(fields["error"@])
    } else {
        None
    };
    match pid {
        None => Err(OutcomeFormatError::InvalidPid),
        Some(pid) => if has_status && status == "pending"@ {
            Ok(OutcomeView { pid: pid as int, pending: true, succeeded: false, error })
        } else if has_status && (status == "success"@ || status == "cleared"@) {
            Ok(OutcomeView { pid: pid as int, pending: false, succeeded: true, error })
        } else if has_status && status == "error"@ {
            Ok(OutcomeView { pid: pid as int, pending: false, succeeded: false, error })
        } else {
            Err(OutcomeFormatError::InvalidStatus)
        },
    }
}

/// The outcome that a text records.
pub open spec fn outcome_in(content: Seq<char>) -> Result<OutcomeView, OutcomeFormatError> {
    outcome_of_fields(stamps::fields_of(content))
}

/// Reads the outcome's file.
pub fn parse_final_snapshot_outcome(content: &str) -> (r: Result<
    FinalSnapshotOutcome,
    OutcomeFormatError,
>)
    ensures
        match r {
            Ok(o) => outcome_in(content@) == Ok::<OutcomeView, OutcomeFormatError>(o.view()),
            Err(e) => outcome_in(content@) == Err::<OutcomeView, OutcomeFormatError>(e),
        },
{
    let fields = stamps::parse_shares_stamp(content);
    let pid: u32 = match fields.get("pid") {
        None => return Err(OutcomeFormatError::InvalidPid),
        Some(raw) => match text::parse(raw, u32::MAX as u64) {
            None => return Err(OutcomeFormatError::InvalidPid),
            Some(pid) => pid as u32,
        },
    };
    let error: Option<String> = match fields.get("error") {
        Some(e) => Some(e.to_owned()),
        None => None,
    };
    let (pending, succeeded) = match fields.get("status") {
        None => return Err(OutcomeFormatError::InvalidStatus),
        Some(status) => {
            if text::same(status, "pending") {
                (true, false)
            } else if text::same(status, "success") || text::same(status, "cleared") {
                (false, true)
            } else if text::same(status, "error") {
                (false, false)
            } else {
                return Err(OutcomeFormatError::InvalidStatus);
            }
        },
    };
    Ok(FinalSnapshotOutcome { pid, pending, succeeded, error })
}

/// Reading an outcome gives back what was recorded; an error comes back as one word.
pub proof fn lemma_outcome_round_trip(pid: u32, status: OutcomeStatus, error: Option<Seq<char>>)
    ensures
        outcome_in(stamps::stamp_text(outcome_fields(pid, status, error))) == Ok::<
            OutcomeView,
            OutcomeFormatError,
        >(
            OutcomeView {
                pid: pid as int,
                pending: status == OutcomeStatus::Pending,
                succeeded: status == OutcomeStatus::Success || status == OutcomeStatus::Cleared,
                error: match error {
                    Some(e) => Some(logs::log_word(e)),
                    None => None,
                },
            },
        ),
{
    let pairs = outcome_fields(pid, status, error);
    reveal_strlit("version");
    reveal_strlit("1");
    reveal_strlit("pid");
    reveal_strlit("status");
    reveal_strlit("error");
    reveal_strlit("pending");
    reveal_strlit("success");
    reveal_strlit("cleared");
    text::lemma_dec_round_trip(pid as nat);
    text::lemma_parse_decimal(pid as nat, u32::MAX as nat);
    let digits = text::dec(pid as nat);
    assert(!digits.contains('\n')) by {
        if digits.contains('\n') {
            let i = choose|i: int| 0 <= i < digits.len() && digits[i] == '\n';
            assert(text::is_digit(digits[i]));
        }
    }
    assert(text::is_digit(digits[digits.len() - 1]));
    if let Some(e) = error {
        logs::lemma_log_word_is_one_word(e);
        let word = logs::log_word(e);
        assert(!word.contains('\n')) by {
            if word.contains('\n') {
                let i = choose|i: int| 0 <= i < word.len() && word[i] == '\n';
                assert(word[i] != '\n');
            }
        }
        if word.len() > 0 {
            assert(word[word.len() - 1] != '\r');
        }
    }
    assert forall|i: int| 0 <= i < pairs.len() implies stamps::is_line_field(
        #[trigger] pairs[i].0,
        pairs[i].1,
    ) by {}
    stamps::lemma_stamp_round_trip(pairs);
    assert("version"@.len() == 7 && "pid"@.len() == 3 && "status"@.len() == 6 && "error"@.len()
        == 5);
    assert forall|i: int, j: int| 0 <= i < j < pairs.len() implies pairs[i].0 != pairs[j].0 by {
        assert(pairs[i].0.len() != pairs[j].0.len());
    }
    stamps::lemma_pairs_map_lookup(pairs, 1);
    stamps::lemma_pairs_map_lookup(pairs, 2);
    let m = stamps::pairs_map(pairs);
    if error is Some {
        stamps::lemma_pairs_map_lookup(pairs, 3);
    } else {
        stamps::lemma_pairs_map_keys(pairs, "error"@);
    }
    assert("success"@.len() == 7 && "pending"@.len() == 7 && "cleared"@.len() == 7);
    assert("success"@[0] == 's' && "pending"@[0] == 'p' && "cleared"@[0] == 'c');
}

// ---------------------------------------------------------------------------
// What keeps an instance from being started
// ---------------------------------------------------------------------------

/// Why an instance cannot be started or is not known to have stopped well.
#[derive(Debug, PartialEq, Eq)]
pub enum OutcomeError {
    /// The owner ended without a word about its final snapshot.
    NotReported { instance: String, pid: u32 },
    /// The recorded outcome is another owner's.
    OtherPid { instance: String, actual: u32, expected: u32 },
    /// The final snapshot was begun and nothing was reported since.
    Unfinished { instance: String, pid: u32 },
    /// The final snapshot failed.
    Failed { instance: String, pid: u32, error: String },
}

/// The advice that ends every such message.
pub open spec fn recovery_text(instance: Seq<char>) -> Seq<char> {
    "recovery: lnx --instance "@ + instance
        + " snapshots clear to acknowledge and explicitly cold-boot"@
}

fn push_recovery(m: &mut String, instance: &str)
    ensures
        final(m)@ == old(m)@ + recovery_text(instance@),
{
    let ghost before = m@;
    m.append("recovery: lnx --instance ");
    m.append(instance);
    m.append(" snapshots clear to acknowledge and explicitly cold-boot");
    assert(m@ =~= before + recovery_text(instance@));
}

impl OutcomeError {
    /// The message shown to the user.
    pub open spec fn text(self) -> Seq<char> {
        match self {
            OutcomeError::NotReported { instance, pid } => "instance "@ + instance@
                + " stopped without reporting whether its final snapshot succeeded (owner pid "@
                + text::dec(pid as nat) + ")\n"@ + recovery_text(instance@),
            OutcomeError::OtherPid { instance, actual, expected } => "instance "@ + instance@
                + " reported a final snapshot outcome for pid "@ + text::dec(actual as nat)
                + ", expected pid "@ + text::dec(expected as nat) + "\n"@ + recovery_text(
                instance@,
            ),
            OutcomeError::Unfinished { instance, pid } => "instance "@ + instance@ + " owner pid "@
                + text::dec(pid as nat) + " did not finish reporting its final snapshot\n"@
                + recovery_text(instance@),
            OutcomeError::Failed { instance, pid, error } => "instance "@ + instance@
                + " final snapshot failed for owner pid "@ + text::dec(pid as nat) + ": "@ + error@
                + "\n"@ + recovery_text(instance@),
        }
    }

    /// The message shown to the user.
    pub fn message(&self) -> (m: String)
        ensures
            m@ == self.text(),
    {
        let mut m: String = "instance ".to_owned();
        match self {
            OutcomeError::NotReported { instance, pid } => {
                m.append(instance.as_str());
                m.append(
                    " stopped without reporting whether its final snapshot succeeded (owner pid ",
                );
                text::push_dec(&mut m, *pid as u128);
                m.append(")\n");
                push_recovery(&mut m, instance.as_str());
                m
            },
            OutcomeError::OtherPid { instance, actual, expected } => {
                m.append(instance.as_str());
                m.append(" reported a final snapshot outcome for pid ");
                text::push_dec(&mut m, *actual as u128);
                m.append(", expected pid ");
                text::push_dec(&mut m, *expected as u128);
                m.append("\n");
                push_recovery(&mut m, instance.as_str());
                m
            },
            OutcomeError::Unfinished { instance, pid } => {
                m.append(instance.as_str());
                m.append(" owner pid ");
                text::push_dec(&mut m, *pid as u128);
                m.append(" did not finish reporting its final snapshot\n");
                push_recovery(&mut m, instance.as_str());
                m
            },
            OutcomeError::Failed { instance, pid, error } => {
                m.append(instance.as_str());
                m.append(" final snapshot failed for owner pid ");
                text::push_dec(&mut m, *pid as u128);
                m.append(": ");
                m.append(error.as_str());
                m.append("\n");
                push_recovery(&mut m, instance.as_str());
                m
            },
        }
    }
}

/// Whether an outcome lets the instance be started: nothing recorded, or a success; of
/// the owner that was expected, where one was.
pub open spec fn outcome_passes(expected: Option<u32>, outcome: Option<OutcomeView>) -> bool {
    match outcome {
        None => expected is None,
        Some(o) => (expected matches Some(pid) ==> o.pid == pid) && !o.pending && o.succeeded,
    }
}

/// The error for an outcome that does not pass.
pub open spec fn is_outcome_error(
    instance: Seq<char>,
    expected: Option<u32>,
    outcome: Option<OutcomeView>,
    e: OutcomeError,
) -> bool {
    match outcome {
        None => expected matches Some(pid) && e matches OutcomeError::NotReported {
            instance: i,
            pid: p,
        } && i@ == instance && p == pid,
        Some(o) => if expected is Some && o.pid != expected->Some_0 {
            e matches OutcomeError::OtherPid { instance: i, actual, expected: x } && i@ == instance
                && actual == o.pid && Some(x) == expected
        } else if o.pending {
            e matches OutcomeError::Unfinished { instance: i, pid } && i@ == instance && pid
                == o.pid
        } else {
            e matches OutcomeError::Failed { instance: i, pid, error } && i@ == instance && pid
                == o.pid && error@ == (match o.error {
                Some(why) => why,
                None => "unknown snapshot error"@,
            })
        },
    }
}

/// Checks the recorded outcome of an instance. `expected_pid` is the owner that stopped,
/// where one did.
pub fn validate_final_snapshot_outcome(
    instance: &str,
    expected_pid: Option<u32>,
    outcome: &Option<FinalSnapshotOutcome>,
) -> (r: Result<(), OutcomeError>)
    ensures
        r is Ok <==> outcome_passes(
            expected_pid,
            outcome_view(*outcome),
        ),
        r matches Err(e) ==> is_outcome_error(
            instance@,
            expected_pid,
            outcome_view(*outcome),
            e,
        ),
{
    match outcome {
        None => match expected_pid {
            None => Ok(()),
            Some(pid) => Err(OutcomeError::NotReported { instance: instance.to_owned(), pid }),
        },
        Some(o) => {
            if let Some(expected) = expected_pid {
                if o.pid != expected {
                    return Err(
                        OutcomeError::OtherPid {
                            instance: instance.to_owned(),
                            actual: o.pid,
                            expected,
                        },
                    );
                }
            }
            if o.pending {
                return Err(
                    OutcomeError::Unfinished { instance: instance.to_owned(), pid: o.pid },
                );
            }
            if !o.succeeded {
                let error: String = match &o.error {
                    Some(e) => e.clone(),
                    None => "unknown snapshot error".to_owned(),
                };
                return Err(
                    OutcomeError::Failed { instance: instance.to_owned(), pid: o.pid, error },
                );
            }
            Ok(())
        },
    }
}

/// Whether the recorded outcome of an owner already keeps its instance from being
/// started.
pub open spec fn blocks(expected_pid: u32, outcome: Option<OutcomeView>) -> bool {
    outcome matches Some(o) && o.pid == expected_pid && (o.pending || !o.succeeded)
}

/// What to do about an owner that stopped.
#[derive(Debug, PartialEq, Eq)]
pub enum StoppedOwner {
    /// It stopped well.
    Fine,
    /// Report the error. The recorded outcome already keeps the instance from being
    /// started.
    Report(OutcomeError),
    /// Record a failure of this owner with this text, then report the error.
    RecordAndReport { error: OutcomeError, record: String },
    /// The recorded outcome cannot be read: record a failure of this owner with this text,
    /// then report why it cannot be read.
    RecordUnreadable { error: String, record: String },
}

/// What a recorded outcome says, where there is one.
pub open spec fn outcome_view(outcome: Option<FinalSnapshotOutcome>) -> Option<OutcomeView> {
    match outcome {
        Some(o) => Some(o.view()),
        None => None,
    }
}

/// What is to be done about an owner that stopped, for the recorded outcome.
pub open spec fn is_stopped_owner(
    instance: Seq<char>,
    expected_pid: u32,
    outcome: Result<Option<FinalSnapshotOutcome>, OutcomeReadError>,
    r: StoppedOwner,
) -> bool {
    match outcome {
        Err(e) => r matches StoppedOwner::RecordUnreadable { error, record } && error@ == e.text()
            && record@ == "owner stopped without a valid final snapshot outcome: "@ + e.text(),
        Ok(outcome) => {
            let seen = outcome_view(outcome);
            if outcome_passes(Some(expected_pid), seen) {
                r is Fine
            } else if blocks(expected_pid, seen) {
                r matches StoppedOwner::Report(e) && is_outcome_error(
                    instance,
                    Some(expected_pid),
                    seen,
                    e,
                )
            } else {
                r matches StoppedOwner::RecordAndReport { error, record } && is_outcome_error(
                    instance,
                    Some(expected_pid),
                    seen,
                    error,
                ) && record@ == "owner stopped without a valid final snapshot outcome: "@
                    + error.text()
            }
        },
    }
}

/// Checks the outcome of an owner that stopped, and makes sure that a failure is
/// recorded: an owner that left no valid outcome of its own gets one that blocks.
pub fn validate_or_record_final_snapshot_failure(
    instance: &str,
    expected_pid: u32,
    outcome: &Result<Option<FinalSnapshotOutcome>, OutcomeReadError>,
) -> (r: StoppedOwner)
    ensures
        is_stopped_owner(instance@, expected_pid, *outcome, r),
{
    let mut record: String = "owner stopped without a valid final snapshot outcome: ".to_owned();
    match outcome {
        Err(e) => {
            let error: String = e.message();
            record.append(error.as_str());
            StoppedOwner::RecordUnreadable { error, record }
        },
        Ok(outcome) => match validate_final_snapshot_outcome(
            instance,
            Some(expected_pid),
            outcome,
        ) {
            Ok(()) => StoppedOwner::Fine,
            Err(error) => {
                let already_blocks: bool = match outcome {
                    Some(o) => o.pid == expected_pid && (o.pending || !o.succeeded),
                    None => false,
                };
                if already_blocks {
                    StoppedOwner::Report(error)
                } else {
                    record.append(error.message().as_str());
                    StoppedOwner::RecordAndReport { error, record }
                }
            },
        },
    }
}

/// A failed or unfinished final snapshot keeps the instance from being started, whichever
/// owner is asked about.
pub proof fn lemma_failure_blocks_the_next_start(o: OutcomeView, expected: Option<u32>)
    requires
        o.pending || !o.succeeded,
    ensures
        !outcome_passes(expected, Some(o)),
{
}

/// Once a stopped owner was checked, its failure stays recorded: what is on record then
/// either passes, or blocks.
pub proof fn lemma_failure_is_on_record(
    pid: u32,
    before: Option<OutcomeView>,
    why: Seq<char>,
)
    ensures
        outcome_passes(Some(pid), before) || blocks(pid, before) || ({
            let recorded = outcome_in(
                stamps::stamp_text(outcome_fields(pid, OutcomeStatus::Error, Some(why))),
            );
            recorded matches Ok(o) && blocks(pid, Some(o)) && !outcome_passes(None, Some(o))
        }),
{
    lemma_outcome_round_trip(pid, OutcomeStatus::Error, Some(why));
}

/// The path of the file that records the outcome.
pub fn outcome_path(layout: &paths::Layout) -> (p: String)
    ensures
        p@ == paths::joined(layout.snapshot_dir@, FINAL_SNAPSHOT_OUTCOME@),
{
    paths::join(layout.snapshot_dir.as_str(), FINAL_SNAPSHOT_OUTCOME)
}

/// What came of reading the file that records the outcome.
#[derive(Debug, PartialEq, Eq)]
pub enum OutcomeText {
    Found(String),
    /// There is no such file.
    Missing,
    /// It could not be opened, for this reason.
    OpenFailed(String),
    /// It was opened, but what it is could not be asked.
    StatFailed(String),
    /// It is no regular file.
    NotRegular,
    /// It could not be read.
    ReadFailed(String),
}

/// The step at which reading the recorded outcome failed.
#[derive(Clone, Copy, PartialEq, Eq, Structural, Debug)]
pub enum OutcomeReadStep {
    Open,
    Stat,
    Read,
}

impl OutcomeReadStep {
    /// The name of the step, in messages.
    pub open spec fn word(self) -> Seq<char> {
        match self {
            OutcomeReadStep::Open => "open "@,
            OutcomeReadStep::Stat => "stat "@,
            OutcomeReadStep::Read => "read "@,
        }
    }
}

/// Why an instance's recorded outcome cannot be read.
#[derive(Debug, PartialEq, Eq)]
pub enum OutcomeReadError {
    Unreadable { step: OutcomeReadStep, path: String, error: String },
    NotRegular { path: String },
    Format { path: String, problem: OutcomeFormatError },
}

impl OutcomeReadError {
    /// The message shown to the user.
    pub open spec fn text(self) -> Seq<char> {
        match self {
            OutcomeReadError::Unreadable { step, path, error } => step.word() + path@ + ": "@
                + error@,
            OutcomeReadError::NotRegular { path } =>
                "final snapshot outcome is not a regular file: "@ + path@,
            OutcomeReadError::Format { path, problem: OutcomeFormatError::InvalidPid } =>
                "invalid pid in "@ + path@,
            OutcomeReadError::Format { path, problem: OutcomeFormatError::InvalidStatus } =>
                "invalid status in "@ + path@,
        }
    }

    /// The message shown to the user.
    pub fn message(&self) -> (m: String)
        ensures
            m@ == self.text(),
    {
        match self {
            OutcomeReadError::Unreadable { step, path, error } => {
                let mut m: String = match step {
                    OutcomeReadStep::Open => "open ".to_owned(),
                    OutcomeReadStep::Stat => "stat ".to_owned(),
                    OutcomeReadStep::Read => "read ".to_owned(),
                };
                m.append(path.as_str());
                m.append(": ");
                m.append(error.as_str());
                m
            },
            OutcomeReadError::NotRegular { path } => {
                let mut m: String = "final snapshot outcome is not a regular file: ".to_owned();
                m.append(path.as_str());
                m
            },
            OutcomeReadError::Format { path, problem } => {
                let mut m: String = match problem {
                    OutcomeFormatError::InvalidPid => "invalid pid in ".to_owned(),
                    OutcomeFormatError::InvalidStatus => "invalid status in ".to_owned(),
                };
                m.append(path.as_str());
                m
            },
        }
    }
}

/// What is recorded in a file, or why that cannot be told.
pub open spec fn is_outcome_read(
    layout: paths::Layout,
    file: OutcomeText,
    r: Result<Option<FinalSnapshotOutcome>, OutcomeReadError>,
) -> bool {
    let at = paths::joined(layout.snapshot_dir@, FINAL_SNAPSHOT_OUTCOME@);
    match file {
        OutcomeText::Missing => r matches Ok(None),
        OutcomeText::OpenFailed(error) => r matches Err(OutcomeReadError::Unreadable {
            step,
            path,
            error: e,
        }) && step is Open && path@ == at && e@ == error@,
        OutcomeText::StatFailed(error) => r matches Err(OutcomeReadError::Unreadable {
            step,
            path,
            error: e,
        }) && step is Stat && path@ == at && e@ == error@,
        OutcomeText::NotRegular => r matches Err(OutcomeReadError::NotRegular { path }) && path@
            == at,
        OutcomeText::ReadFailed(error) => r matches Err(OutcomeReadError::Unreadable {
            step,
            path,
            error: e,
        }) && step is Read && path@ == at && e@ == error@,
        OutcomeText::Found(content) => match outcome_in(content@) {
            Ok(o) => r matches Ok(Some(got)) && got.view() == o,
            Err(why) => r matches Err(OutcomeReadError::Format { path, problem }) && path@ == at
                && problem == why,
        },
    }
}

/// Reads the recorded outcome of an instance: none where there is no file.
pub fn read_final_snapshot_outcome(layout: &paths::Layout, file: &OutcomeText) -> (r: Result<
    Option<FinalSnapshotOutcome>,
    OutcomeReadError,
>)
    ensures
        is_outcome_read(*layout, *file, r),
{
    let path: String = outcome_path(layout);
    match file {
        OutcomeText::Missing => Ok(None),
        OutcomeText::OpenFailed(error) => Err(
            OutcomeReadError::Unreadable { step: OutcomeReadStep::Open, path, error: error.clone() },
        ),
        OutcomeText::StatFailed(error) => Err(
            OutcomeReadError::Unreadable { step: OutcomeReadStep::Stat, path, error: error.clone() },
        ),
        OutcomeText::NotRegular => Err(OutcomeReadError::NotRegular { path }),
        OutcomeText::ReadFailed(error) => Err(
            OutcomeReadError::Unreadable { step: OutcomeReadStep::Read, path, error: error.clone() },
        ),
        OutcomeText::Found(content) => match parse_final_snapshot_outcome(content.as_str()) {
            Ok(o) => Ok(Some(o)),
            Err(problem) => Err(OutcomeReadError::Format { path, problem }),
        },
    }
}

// ---------------------------------------------------------------------------
// Recording an outcome
// ---------------------------------------------------------------------------

/// Writes the outcome of a final snapshot that has ended, with its error if it failed.
pub fn finished_outcome_content(pid: u32, error: Option<&str>) -> (s: String)
    ensures
        s@ == stamps::stamp_text(
            outcome_fields(
                pid,
                if error is None {
                    OutcomeStatus::Success
                } else {
                    OutcomeStatus::Error
                },
                text::opt_view(error),
            ),
        ),
{
    let status: OutcomeStatus = if error.is_none() {
        OutcomeStatus::Success
    } else {
        OutcomeStatus::Error
    };
    final_snapshot_outcome_content(pid, status, error)
}

/// How many names are tried for the file that an outcome is written to first.
pub const OUTCOME_TEMP_ATTEMPTS: u32 = 1000;

/// The name of the file that an outcome is written to before it is put in place.
pub open spec fn outcome_temp_name(pid: u32, unix_nanos: u128, attempt: u32) -> Seq<char> {
    "."@ + FINAL_SNAPSHOT_OUTCOME@ + ".tmp-"@ + text::dec(pid as nat) + "-"@ + text::dec(
        unix_nanos as nat,
    ) + "-"@ + text::dec(attempt as nat)
}

/// The path of the file that an outcome is written to before it is put in place.
pub fn outcome_temp_path(layout: &paths::Layout, pid: u32, unix_nanos: u128, attempt: u32) -> (p:
    String)
    ensures
        p@ == paths::joined(layout.snapshot_dir@, outcome_temp_name(pid, unix_nanos, attempt)),
{
    let mut name: String = ".".to_owned();
    name.append(FINAL_SNAPSHOT_OUTCOME);
    name.append(".tmp-");
    text::push_dec(&mut name, pid as u128);
    name.append("-");
    text::push_dec(&mut name, unix_nanos);
    name.append("-");
    text::push_dec(&mut name, attempt as u128);
    paths::join(layout.snapshot_dir.as_str(), name.as_str())
}

/// What came of creating a file that must not be there yet.
#[derive(Debug, PartialEq, Eq)]
pub enum Created {
    Done,
    AlreadyThere,
    Failed,
}

/// What is done after a file was to be created.
#[derive(Debug, PartialEq, Eq)]
pub enum CreateStep {
    /// Write to it.
    Use,
    /// Try the next name.
    Next { attempt: u32 },
    /// Report the error.
    Fail,
    /// No name was free.
    GiveUp,
}

/// What is done after the file for an outcome was to be created.
pub fn outcome_temp_step(attempt: u32, seen: Created) -> (r: CreateStep)
    ensures
        match seen {
            Created::Done => r is Use,
            Created::Failed => r is Fail,
            Created::AlreadyThere => if attempt < OUTCOME_TEMP_ATTEMPTS - 1 {
                r == (CreateStep::Next { attempt: (attempt + 1) as u32 })
            } else {
                r is GiveUp
            },
        },
        r matches CreateStep::Next { attempt: n } ==> n == attempt + 1 && n < 1000,
        r is GiveUp <==> seen is AlreadyThere && attempt >= 999,
{
    match seen {
        Created::Done => CreateStep::Use,
        Created::Failed => CreateStep::Fail,
        Created::AlreadyThere => if attempt < OUTCOME_TEMP_ATTEMPTS - 1 {
            CreateStep::Next { attempt: attempt + 1 }
        } else {
            CreateStep::GiveUp
        },
    }
}

/// What is found where an outcome is recorded.
#[derive(Debug, PartialEq, Eq)]
pub enum OutcomeFile {
    Missing,
    Regular,
    NotRegular,
    Failed,
}

/// How an outcome is acknowledged.
#[derive(Debug, PartialEq, Eq)]
pub enum Acknowledge {
    /// The file is overwritten in place, so that no failure is ever off the record.
    Overwrite { content: String },
    /// A file is put in place.
    Create { content: String },
    NotRegular,
    Fail,
}

/// Acknowledges an outcome, so that the instance can be started again.
pub fn acknowledge_final_snapshot_outcome(pid: u32, file: OutcomeFile) -> (r: Acknowledge)
    ensures
        ({
            let text = stamps::stamp_text(outcome_fields(pid, OutcomeStatus::Cleared, None));
            match file {
                OutcomeFile::Regular => r matches Acknowledge::Overwrite { content } && content@
                    == text,
                OutcomeFile::Missing => r matches Acknowledge::Create { content } && content@
                    == text,
                OutcomeFile::NotRegular => r is NotRegular,
                OutcomeFile::Failed => r is Fail,
            }
        }),
{
    match file {
        OutcomeFile::Regular => Acknowledge::Overwrite {
            content: final_snapshot_outcome_content(pid, OutcomeStatus::Cleared, None),
        },
        OutcomeFile::Missing => Acknowledge::Create {
            content: final_snapshot_outcome_content(pid, OutcomeStatus::Cleared, None),
        },
        OutcomeFile::NotRegular => Acknowledge::NotRegular,
        OutcomeFile::Failed => Acknowledge::Fail,
    }
}

/// An outcome that was acknowledged keeps the instance from nothing.
pub proof fn lemma_acknowledged_instances_start(pid: u32)
    ensures
        outcome_in(stamps::stamp_text(outcome_fields(pid, OutcomeStatus::Cleared, None))) matches Ok(
            o,
        ) && outcome_passes(None, Some(o)) && outcome_passes(Some(pid), Some(o)),
{
    lemma_outcome_round_trip(pid, OutcomeStatus::Cleared, None);
}

// ---------------------------------------------------------------------------
// Laws of outcomes
// ---------------------------------------------------------------------------

/// When fields record an outcome, and which: a number has to be there, and one of four
/// words. Only `success` and `cleared` are good, and only `pending` is still open.
pub proof fn lemma_recorded_outcome(fields: Map<Seq<char>, Seq<char>>)
    ensures
        ({
            let numbered = fields.dom().contains("pid"@) && text::parsed(
                fields["pid"@],
                u32::MAX as nat,
            ) is Some;
            let word = fields["status"@];
            let worded = fields.dom().contains("status"@) && (word == "pending"@ || word
                == "success"@ || word == "cleared"@ || word == "error"@);
            &&& outcome_of_fields(fields) is Ok <==> numbered && worded
            &&& !numbered ==> outcome_of_fields(fields) == Err::<OutcomeView, _>(
                OutcomeFormatError::InvalidPid,
            )
            &&& numbered && !worded ==> outcome_of_fields(fields) == Err::<OutcomeView, _>(
                OutcomeFormatError::InvalidStatus,
            )
            &&& outcome_of_fields(fields) matches Ok(o) ==> {
                &&& o.pid == text::parsed(fields["pid"@], u32::MAX as nat)->Some_0
                &&& o.pending <==> word == "pending"@
                &&& o.succeeded <==> word == "success"@ || word == "cleared"@
                &&& o.error is Some <==> fields.dom().contains("error"@)
                &&& o.error matches Some(e) ==> e == fields["error"@]
            }
        }),
{
    reveal_strlit("pending");
    reveal_strlit("success");
    reveal_strlit("cleared");
    reveal_strlit("error");
    assert("pending"@[0] == 'p' && "success"@[0] == 's' && "cleared"@[0] == 'c' && "error"@[0]
        == 'e');
}

/// An outcome lets an instance start where it is finished and good and is the owner's that
/// is asked about; none at all does where no owner is asked about.
pub proof fn lemma_when_an_outcome_passes(o: OutcomeView, pid: u32)
    ensures
        outcome_passes(None, None),
        !outcome_passes(Some(pid), None),
        outcome_passes(None, Some(o)) <==> o.succeeded && !o.pending,
        outcome_passes(Some(pid), Some(o)) <==> o.succeeded && !o.pending && o.pid == pid,
        blocks(pid, Some(o)) <==> o.pid == pid && !(o.succeeded && !o.pending),
        !blocks(pid, None),
{
}

/// An owner stopped well exactly where its outcome could be read and passes; whatever else
/// was found is reported, and recorded where no outcome of this owner blocks already.
pub proof fn lemma_how_an_owner_stopped(
    instance: Seq<char>,
    pid: u32,
    recorded: Result<Option<FinalSnapshotOutcome>, OutcomeReadError>,
    r: StoppedOwner,
)
    requires
        is_stopped_owner(instance, pid, recorded, r),
    ensures
        r is Fine <==> (recorded matches Ok(Some(o)) && o.succeeded && !o.pending && o.pid == pid),
        r is Report <==> (recorded matches Ok(Some(o)) && o.pid == pid && (o.pending
            || !o.succeeded)),
        r is RecordUnreadable <==> recorded is Err,
{
}

/// The name of a file that an outcome is first written to tells attempts, times and owners
/// apart, and is one that no bundle holds.
#[verifier::spinoff_prover]
#[verifier::rlimit(40)]
pub proof fn lemma_outcome_temp_name(pid: u32, unix_nanos: u128, attempt: u32)
    ensures
        text::begins(
            outcome_temp_name(pid, unix_nanos, attempt),
            ".final-snapshot.outcome.tmp-"@,
        ),
        text::split_on(
            outcome_temp_name(pid, unix_nanos, attempt).skip(
                ".final-snapshot.outcome.tmp-"@.len() as int,
            ),
            '-',
        ) == seq![
            text::dec(pid as nat),
            text::dec(unix_nanos as nat),
            text::dec(attempt as nat),
        ],
{
    reveal_strlit(".");
    reveal_strlit("final-snapshot.outcome");
    reveal_strlit(".tmp-");
    reveal_strlit(".final-snapshot.outcome.tmp-");
    reveal_strlit("-");
    let head = ".final-snapshot.outcome.tmp-"@;
    assert(head =~= "."@ + FINAL_SNAPSHOT_OUTCOME@ + ".tmp-"@);
    let (a, b, c) = (
        text::dec(pid as nat),
        text::dec(unix_nanos as nat),
        text::dec(attempt as nat),
    );
    let x = a + seq!['-'] + b;
    let rest = x + seq!['-'] + c;
    assert("-"@ =~= seq!['-']);
    let name = outcome_temp_name(pid, unix_nanos, attempt);
    assert(name =~= head + rest);
    assert(name.subrange(0, head.len() as int) =~= head);
    assert(name.skip(head.len() as int) =~= rest);
    lemma_number_has_no_dash(pid as nat);
    lemma_number_has_no_dash(unix_nanos as nat);
    lemma_number_has_no_dash(attempt as nat);
    text::lemma_split_of_one(a, '-');
    text::lemma_split_of_one(b, '-');
    text::lemma_split_of_one(c, '-');
    text::lemma_split_of_two(a, b, '-');
    text::lemma_split_of_two(x, c, '-');
    assert(text::split_on(rest, '-') =~= seq![a, b, c]);
}

proof fn lemma_number_has_no_dash(n: nat)
    ensures
        !text::dec(n).contains('-'),
{
    text::lemma_dec_round_trip(n);
    let d = text::dec(n);
    assert forall|i: int| 0 <= i < d.len() implies d[i] != '-' by {
        assert(text::is_digit(d[i]));
    }
}

/// Which error an outcome that does not pass gives: that nothing was reported, that another
/// owner did, that nothing came of it yet, or that it failed, and why.
pub proof fn lemma_which_outcome_error(
    instance: Seq<char>,
    expected: Option<u32>,
    outcome: Option<OutcomeView>,
    e: OutcomeError,
)
    requires
        is_outcome_error(instance, expected, outcome, e),
    ensures
        e is NotReported <==> outcome is None,
        e is OtherPid <==> (outcome matches Some(o) && (expected matches Some(pid) && o.pid
            != pid)),
        e is Unfinished <==> (outcome matches Some(o) && o.pending && (expected matches Some(pid)
            ==> o.pid == pid)),
        e is Failed <==> (outcome matches Some(o) && !o.pending && (expected matches Some(pid)
            ==> o.pid == pid)),
        e matches OutcomeError::Failed { instance: i, pid, error } ==> i@ == instance && (
        outcome matches Some(o) && pid == o.pid && (o.error matches Some(why) ==> error@ == why)),
        e matches OutcomeError::Unfinished { instance: i, pid } ==> i@ == instance && (
        outcome matches Some(o) && pid == o.pid),
        e matches OutcomeError::OtherPid { instance: i, actual, expected: x } ==> i@ == instance
            && expected == Some(x) && (outcome matches Some(o) && actual == o.pid),
        e matches OutcomeError::NotReported { instance: i, pid } ==> i@ == instance && expected
            == Some(pid),
{
}

/// A recorded outcome is none where there is no file, and what the file says where it can
/// be read; anything else is an error.
pub proof fn lemma_read_outcome(
    layout: paths::Layout,
    file: OutcomeText,
    r: Result<Option<FinalSnapshotOutcome>, OutcomeReadError>,
)
    requires
        is_outcome_read(layout, file, r),
    ensures
        r matches Ok(None) <==> file is Missing,
        r matches Ok(Some(o)) ==> (file matches OutcomeText::Found(content) && outcome_in(content@)
            == Ok::<OutcomeView, OutcomeFormatError>(o.view())),
        r is Err <==> !(file is Missing) && !(file matches OutcomeText::Found(content)
            && outcome_in(content@) is Ok),
{
}

/// What is written of an outcome: its version, the owner's number, a word for what came of
/// it, and the error exactly where there is one.
pub proof fn lemma_written_outcome(pid: u32, status: OutcomeStatus, error: Option<Seq<char>>)
    ensures
        ({
            let fields = outcome_fields(pid, status, error);
            &&& fields.len() == (if error is Some {
                4int
            } else {
                3int
            })
            &&& fields[0] == ("version"@, "1"@)
            &&& fields[1] == ("pid"@, text::dec(pid as nat))
            &&& fields[2].0 == "status"@
            &&& fields[2].1 == (match status {
                OutcomeStatus::Pending => "pending"@,
                OutcomeStatus::Success => "success"@,
                OutcomeStatus::Cleared => "cleared"@,
                OutcomeStatus::Error => "error"@,
            })
            &&& error matches Some(e) ==> fields[3] == ("error"@, logs::log_word(e))
        }),
{
}

/// What is looked at of an outcome: all that it says.
pub proof fn lemma_view_of_an_outcome(o: FinalSnapshotOutcome)
    ensures
        o@.pid == o.pid,
        o@.pending == o.pending,
        o@.succeeded == o.succeeded,
        o@.error is Some <==> o.error is Some,
        o.error matches Some(e) ==> o@.error == Some(e@),
        outcome_view(Some(o)) == Some(o@),
        outcome_view(None) is None,
{
}

/// Every message about a final snapshot names its instance first, and tells the command
/// that lets the instance start again.
#[verifier::spinoff_prover]
#[verifier::rlimit(40)]
pub proof fn lemma_messages_tell_the_command(e: OutcomeError)
    ensures
        ({
            let instance = match e {
                OutcomeError::NotReported { instance, pid } => instance@,
                OutcomeError::OtherPid { instance, actual, expected } => instance@,
                OutcomeError::Unfinished { instance, pid } => instance@,
                OutcomeError::Failed { instance, pid, error } => instance@,
            };
            &&& e.text().take(9 + instance.len() as int) == "instance "@ + instance
            &&& text::holds(e.text(), "lnx --instance "@ + instance + " snapshots clear"@)
        }),
        e matches OutcomeError::Failed { error, .. } ==> text::holds(e.text(), error@),
{
    let (instance, middle) = match e {
        OutcomeError::NotReported { instance, pid } => (
            instance@,
            " stopped without reporting whether its final snapshot succeeded (owner pid "@
                + text::dec(pid as nat) + ")\n"@,
        ),
        OutcomeError::OtherPid { instance, actual, expected } => (
            instance@,
            " reported a final snapshot outcome for pid "@ + text::dec(actual as nat)
                + ", expected pid "@ + text::dec(expected as nat) + "\n"@,
        ),
        OutcomeError::Unfinished { instance, pid } => (
            instance@,
            " owner pid "@ + text::dec(pid as nat)
                + " did not finish reporting its final snapshot\n"@,
        ),
        OutcomeError::Failed { instance, pid, error } => (
            instance@,
            " final snapshot failed for owner pid "@ + text::dec(pid as nat) + ": "@ + error@
                + "\n"@,
        ),
    };
    let head = "instance "@ + instance + middle;
    assert(e.text() =~= head + recovery_text(instance));
    lemma_advice(instance);
    let command = "lnx --instance "@ + instance + " snapshots clear"@;
    let (a, b) = ("recovery: "@, " to acknowledge and explicitly cold-boot"@);
    assert(head + (a + command + b) =~= (head + a) + command + b);
    text::lemma_held(head + a, command, b);
    assert("instance "@.len() == 9) by {
        reveal_strlit("instance ");
    }
    assert(e.text().take(9 + instance.len() as int) =~= "instance "@ + instance);
    if let OutcomeError::Failed { instance, pid, error } = e {
        let before = "instance "@ + instance@ + " final snapshot failed for owner pid "@
            + text::dec(pid as nat) + ": "@;
        let after = "\n"@ + recovery_text(instance@);
        assert(e.text() =~= before + error@ + after);
        text::lemma_held(before, error@, after);
    }
}

#[verifier::spinoff_prover]
#[verifier::rlimit(40)]
proof fn lemma_advice(instance: Seq<char>)
    ensures
        recovery_text(instance) == "recovery: "@ + ("lnx --instance "@ + instance
            + " snapshots clear"@) + " to acknowledge and explicitly cold-boot"@,
{
    assert("recovery: lnx --instance "@ =~= "recovery: "@ + "lnx --instance "@) by {
        reveal_strlit("recovery: lnx --instance ");
        reveal_strlit("recovery: ");
        reveal_strlit("lnx --instance ");
    }
    assert(" snapshots clear to acknowledge and explicitly cold-boot"@ =~= " snapshots clear"@
        + " to acknowledge and explicitly cold-boot"@) by {
        reveal_strlit(" snapshots clear to acknowledge and explicitly cold-boot");
        reveal_strlit(" snapshots clear");
        reveal_strlit(" to acknowledge and explicitly cold-boot");
    }
    assert(recovery_text(instance) =~= "recovery: "@ + ("lnx --instance "@ + instance
        + " snapshots clear"@) + " to acknowledge and explicitly cold-boot"@);
}

} // verus!
