//! Deterministic mode: the stamp that tells whether two VMs are of the same mode, the
//! virtual clock, and the identifiers and entropy that are derived from the seed.
use vstd::prelude::*;

use crate::bytes;
use crate::digest;
use crate::paths;
use crate::stamps;
use crate::stamps::FileText;
use crate::text;

verus! {

/// How many bytes of entropy a restored guest is given.
pub const RESTORE_ENTROPY_BYTES: usize = 64;

/// Deterministic mode is on, with this seed.
#[derive(Clone, Debug, PartialEq, Eq)]
pub struct DeterministicConfig {
    pub seed: String,
}

/// The seed, where deterministic mode is on.
pub open spec fn seed_of(config: Option<&DeterministicConfig>) -> Option<Seq<char>> {
    match config {
        Some(c) => Some(c.seed@),
        None => None,
    }
}

// ---------------------------------------------------------------------------
// The stamp
// ---------------------------------------------------------------------------

/// The fields of the stamp for a seed, or for deterministic mode being off.
pub open spec fn stamp_fields(seed: Option<Seq<char>>) -> Seq<(Seq<char>, Seq<char>)> {
    match seed {
        Some(seed) => seq![
            ("deterministic"@, "enabled-v1"@),
            ("seed"@, seed),
            ("initial_realtime_unix_secs"@, "0"@),
            ("clock_state"@, "deterministic-clock-state-v1"@),
            ("restore_timer_rebase"@, "disabled-v1"@),
            ("virtual_counter"@, "kvm-controlled-counter-v1"@),
            ("kvm_halt_poll"@, "disabled-v1"@),
            ("kvm_wfi_exit"@, "enabled-v1"@),
            ("host_activity_gate"@, "broker-and-device-idle-v1"@),
            ("rtc"@, "deterministic-zero-v1"@),
            ("trng"@, "deterministic-smccc-v1"@),
            ("virtio_rng"@, "deterministic-stateless-v1"@),
            ("vsock_timesync"@, "disabled-v1"@),
            ("restore_entropy"@, "sha256-seed-v1"@),
            ("exec_user"@, "uid1000-gid1000-lnxuser"@),
            ("exec_env"@, "c-utf8-utc-v1"@),
            ("exec_tty"@, "none-24x80-xterm-256color-v1"@),
            ("network"@, "gvproxy-fixed-v1"@),
        ],
        None => seq![("deterministic"@, "disabled-v1"@)],
    }
}

/// The text of the stamp.
pub open spec fn stamp_of(seed: Option<Seq<char>>) -> Seq<char> {
    stamps::stamp_text(stamp_fields(seed))
}

/// Writes the stamp of a configuration.
pub fn deterministic_stamp_content(config: Option<&DeterministicConfig>) -> (s: String)
    ensures
        s@ == stamp_of(seed_of(config)),
{
    let mut pairs: Vec<(&str, String)> = Vec::new();
    match config {
        Some(config) => {
            pairs.push(("deterministic", "enabled-v1".to_owned()));
            pairs.push(("seed", config.seed.clone()));
            pairs.push(("initial_realtime_unix_secs", "0".to_owned()));
            pairs.push(("clock_state", "deterministic-clock-state-v1".to_owned()));
            pairs.push(("restore_timer_rebase", "disabled-v1".to_owned()));
            pairs.push(("virtual_counter", "kvm-controlled-counter-v1".to_owned()));
            pairs.push(("kvm_halt_poll", "disabled-v1".to_owned()));
            pairs.push(("kvm_wfi_exit", "enabled-v1".to_owned()));
            pairs.push(("host_activity_gate", "broker-and-device-idle-v1".to_owned()));
            pairs.push(("rtc", "deterministic-zero-v1".to_owned()));
            pairs.push(("trng", "deterministic-smccc-v1".to_owned()));
            pairs.push(("virtio_rng", "deterministic-stateless-v1".to_owned()));
            pairs.push(("vsock_timesync", "disabled-v1".to_owned()));
            pairs.push(("restore_entropy", "sha256-seed-v1".to_owned()));
            pairs.push(("exec_user", "uid1000-gid1000-lnxuser".to_owned()));
            pairs.push(("exec_env", "c-utf8-utc-v1".to_owned()));
            pairs.push(("exec_tty", "none-24x80-xterm-256color-v1".to_owned()));
            pairs.push(("network", "gvproxy-fixed-v1".to_owned()));
        },
        None => {
            pairs.push(("deterministic", "disabled-v1".to_owned()));
        },
    }
    assert(stamps::borrowed_pairs(pairs@) =~= stamp_fields(seed_of(config)));
    stamps::write_stamp(&pairs)
}

/// The keys by which two stamps are told apart, in the order in which they are named.
pub open spec fn stamp_keys() -> Seq<Seq<char>> {
    seq![
        "deterministic"@,
        "seed"@,
        "initial_realtime_unix_secs"@,
        "clock_state"@,
        "restore_timer_rebase"@,
        "virtual_counter"@,
        "kvm_halt_poll"@,
        "kvm_wfi_exit"@,
        "host_activity_gate"@,
        "rtc"@,
        "trng"@,
        "virtio_rng"@,
        "vsock_timesync"@,
        "restore_entropy"@,
        "exec_user"@,
        "exec_env"@,
        "exec_tty"@,
        "network"@,
    ]
}

fn stamp_key_list() -> (v: Vec<&'static str>)
    ensures
        v@.len() == stamp_keys().len(),
        forall|i: int| 0 <= i < v@.len() ==> (#[trigger] v@[i])@ == stamp_keys()[i],
{
    let mut v: Vec<&'static str> = Vec::new();
    v.push("deterministic");
    v.push("seed");
    v.push("initial_realtime_unix_secs");
    v.push("clock_state");
    v.push("restore_timer_rebase");
    v.push("virtual_counter");
    v.push("kvm_halt_poll");
    v.push("kvm_wfi_exit");
    v.push("host_activity_gate");
    v.push("rtc");
    v.push("trng");
    v.push("virtio_rng");
    v.push("vsock_timesync");
    v.push("restore_entropy");
    v.push("exec_user");
    v.push("exec_env");
    v.push("exec_tty");
    v.push("network");
    v
}

/// The value of a key, or a word for there being none.
pub open spec fn value_or_absent(fields: Map<Seq<char>, Seq<char>>, key: Seq<char>) -> Seq<char> {
    if fields.dom().contains(key) {
        fields[key]
    } else {
        "<absent>"@
    }
}

/// A line for each of the keys whose values differ.
pub open spec fn mismatches(
    snapshot: Map<Seq<char>, Seq<char>>,
    current: Map<Seq<char>, Seq<char>>,
    keys: Seq<Seq<char>>,
) -> Seq<Seq<char>>
    decreases keys.len(),
{
    if keys.len() == 0 {
        Seq::empty()
    } else {
        let rest = mismatches(snapshot, current, keys.drop_last());
        let key = keys.last();
        let was = value_or_absent(snapshot, key);
        let is = value_or_absent(current, key);
        if was == is {
            rest
        } else {
            rest.push(key + ": snapshot="@ + was + " current="@ + is)
        }
    }
}

/// How two stamps differ, in words.
pub open spec fn mismatch_text(snapshot: Seq<char>, current: Seq<char>) -> Seq<char> {
    let lines = mismatches(stamps::fields_of(snapshot), stamps::fields_of(current), stamp_keys());
    if lines.len() == 0 {
        "snapshot and current deterministic stamps differ only in unrecognized fields"@
    } else {
        text::joined(lines, "; "@)
    }
}

fn field_or_absent<'a>(fields: &'a stamps::Fields, key: &str) -> (r: &'a str)
    ensures
        r@ == value_or_absent(fields.map(), key@),
{
    match fields.get(key) {
        Some(value) => value,
        None => "<absent>",
    }
}

/// Says how two stamps differ: each key whose values differ, in the order of the stamp.
pub fn describe_deterministic_stamp_mismatch(snapshot: &str, current: &str) -> (s: String)
    ensures
        s@ == mismatch_text(snapshot@, current@),
{
    let snapshot_fields = stamps::parse_shares_stamp(snapshot);
    let current_fields = stamps::parse_shares_stamp(current);
    let keys: Vec<&'static str> = stamp_key_list();
    let mut lines: Vec<String> = Vec::new();
    let mut i: usize = 0;
    assert(text::views(lines@) =~= Seq::<Seq<char>>::empty());
    while i < keys.len()
        invariant
            i <= keys@.len(),
            keys@.len() == stamp_keys().len(),
            forall|k: int| 0 <= k < keys@.len() ==> (#[trigger] keys@[k])@ == stamp_keys()[k],
            text::views(lines@) == mismatches(
                snapshot_fields.map(),
                current_fields.map(),
                stamp_keys().take(i as int),
            ),
        decreases keys@.len() - i,
    {
        let key: &str = keys[i];
        let was: &str = field_or_absent(&snapshot_fields, key);
        let is: &str = field_or_absent(&current_fields, key);
        let ghost before = lines@;
        proof {
            let next = stamp_keys().take(i + 1);
            assert(next.drop_last() =~= stamp_keys().take(i as int));
            assert(next.last() == key@);
        }
        if !text::same(was, is) {
            let mut line: String = key.to_owned();
            line.append(": snapshot=");
            line.append(was);
            line.append(" current=");
            line.append(is);
            lines.push(line);
            assert(text::views(lines@) =~= text::views(before).push(lines@.last()@));
        }
        i = i + 1;
    }
    assert(stamp_keys().take(i as int) =~= stamp_keys());
    assert(text::views(lines@).len() == lines@.len());
    if lines.len() == 0 {
        "snapshot and current deterministic stamps differ only in unrecognized fields".to_owned()
    } else {
        text::join(&lines, "; ")
    }
}

/// Equal stamps differ in nothing.
pub proof fn lemma_no_mismatch_with_itself(fields: Map<Seq<char>, Seq<char>>, keys: Seq<Seq<char>>)
    ensures
        mismatches(fields, fields, keys) == Seq::<Seq<char>>::empty(),
    decreases keys.len(),
{
    if keys.len() > 0 {
        lemma_no_mismatch_with_itself(fields, keys.drop_last());
    }
}

/// Why a snapshot's stamp does not fit the current one; `None` when it does. A snapshot
/// without a stamp fits a VM that is not deterministic.
pub open spec fn snapshot_stamp_problem(file: FileText, current: Seq<char>) -> Option<Seq<char>> {
    match file {
        FileText::Found(stamp) => if stamp@ == current {
            None
        } else {
            Some(mismatch_text(stamp@, current))
        },
        FileText::Missing => if current == stamp_of(None) {
            None
        } else {
            Some("snapshot has no deterministic compatibility stamp"@)
        },
        FileText::Failed(error) => Some("deterministic_stamp_unreadable: "@ + error@),
    }
}

/// Says why a snapshot's stamp does not fit the current one.
pub fn snapshot_deterministic_incompatibility(file: &FileText, current: &str) -> (r: Option<String>)
    ensures
        match r {
            Some(s) => snapshot_stamp_problem(*file, current@) == Some(s@),
            None => snapshot_stamp_problem(*file, current@) is None,
        },
{
    match file {
        FileText::Found(stamp) => {
            if text::same(stamp.as_str(), current) {
                None
            } else {
                Some(describe_deterministic_stamp_mismatch(stamp.as_str(), current))
            }
        },
        FileText::Missing => {
            let disabled: String = deterministic_stamp_content(None);
            if text::same(current, disabled.as_str()) {
                None
            } else {
                Some("snapshot has no deterministic compatibility stamp".to_owned())
            }
        },
        FileText::Failed(error) => {
            let mut s: String = "deterministic_stamp_unreadable: ".to_owned();
            s.append(error.as_str());
            Some(s)
        },
    }
}

/// Why a running VM's stamp does not fit.
#[derive(Debug, PartialEq, Eq)]
pub enum RuntimeStampError {
    Incompatible { reason: String, path: String },
    Missing { path: String },
    Unreadable { path: String, error: String },
}

impl RuntimeStampError {
    /// The message shown to the user.
    pub open spec fn text(self) -> Seq<char> {
        match self {
            RuntimeStampError::Incompatible { reason, path } =>
                "running VM deterministic stamp is incompatible ("@ + reason@ + "): "@ + path@,
            RuntimeStampError::Missing { path } =>
                "running VM has no deterministic compatibility stamp: "@ + path@,
            RuntimeStampError::Unreadable { path, error } => "read "@ + path@ + ": "@ + error@,
        }
    }

    /// The message shown to the user.
    pub fn message(&self) -> (m: String)
        ensures
            m@ == self.text(),
    {
        match self {
            RuntimeStampError::Incompatible { reason, path } => {
                let mut m: String = "running VM deterministic stamp is incompatible (".to_owned();
                m.append(reason.as_str());
                m.append("): ");
                m.append(path.as_str());
                m
            },
            RuntimeStampError::Missing { path } => {
                let mut m: String = "running VM has no deterministic compatibility stamp: ".to_owned();
                m.append(path.as_str());
                m
            },
            RuntimeStampError::Unreadable { path, error } => {
                let mut m: String = "read ".to_owned();
                m.append(path.as_str());
                m.append(": ");
                m.append(error.as_str());
                m
            },
        }
    }
}

/// Checks that a running VM is of the deterministic mode that a client asks for.
/// `file` is what came of reading `deterministic.stamp` in the run directory.
pub fn validate_runtime_deterministic_compatibility(
    layout: &paths::Layout,
    deterministic: Option<&DeterministicConfig>,
    file: &FileText,
) -> (r: Result<(), RuntimeStampError>)
    ensures
        r is Ok <==> match *file {
            FileText::Found(stamp) => stamp@ == stamp_of(seed_of(deterministic)),
            FileText::Missing => stamp_of(seed_of(deterministic)) == stamp_of(None),
            FileText::Failed(_) => false,
        },
        r matches Err(e) ==> {
            let path = paths::joined(layout.run_dir@, "deterministic.stamp"@);
            match *file {
                FileText::Found(stamp) => e matches RuntimeStampError::Incompatible {
                    reason,
                    path: p,
                } && p@ == path && reason@ == mismatch_text(
                    stamp@,
                    stamp_of(seed_of(deterministic)),
                ),
                FileText::Missing => e matches RuntimeStampError::Missing { path: p } && p@ == path,
                FileText::Failed(error) => e matches RuntimeStampError::Unreadable {
                    path: p,
                    error: why,
                } && p@ == path && why@ == error@,
            }
        },
{
    let current: String = deterministic_stamp_content(deterministic);
    let path: String = paths::join(layout.run_dir.as_str(), "deterministic.stamp");
    match file {
        FileText::Found(stamp) => {
            if text::same(stamp.as_str(), current.as_str()) {
                Ok(())
            } else {
                Err(
                    RuntimeStampError::Incompatible {
                        reason: describe_deterministic_stamp_mismatch(
                            stamp.as_str(),
                            current.as_str(),
                        ),
                        path,
                    },
                )
            }
        },
        FileText::Missing => {
            let disabled: String = deterministic_stamp_content(None);
            if text::same(current.as_str(), disabled.as_str()) {
                Ok(())
            } else {
                Err(RuntimeStampError::Missing { path })
            }
        },
        FileText::Failed(error) => Err(RuntimeStampError::Unreadable { path, error: error.clone() }),
    }
}

// ---------------------------------------------------------------------------
// The virtual clock
// ---------------------------------------------------------------------------

/// The file that a deterministic VM keeps its clock in.
pub const DETERMINISTIC_CLOCK_STATE: &'static str = "deterministic-clock.state";

/// The virtual clock of a deterministic VM.
#[derive(Clone, Copy, PartialEq, Eq, Structural, Debug)]
pub struct DeterministicClockState {
    pub realtime_unix_nanos: u64,
    pub monotonic_nanos: u64,
    pub counter_frequency_hz: u64,
    pub event_sequence: u64,
    pub timer_jump_count: u64,
    pub last_timer_deadline_ticks: u64,
}

/// The setting of the hypervisor for deterministic time, where it is set.
pub fn krun_deterministic_time(enabled: bool) -> (r: Option<&'static str>)
    ensures
        enabled ==> (r matches Some(s) && s@ == "1"@),
        !enabled ==> r is None,
{
    if enabled {
        Some("1")
    } else {
        None
    }
}

/// The clock of a VM that was never run: all zero, with a counter that counts
/// nanoseconds.
pub fn initial_deterministic_clock_state() -> (s: DeterministicClockState)
    ensures
        s == (DeterministicClockState {
            realtime_unix_nanos: 0,
            monotonic_nanos: 0,
            counter_frequency_hz: 1000000000,
            event_sequence: 0,
            timer_jump_count: 0,
            last_timer_deadline_ticks: 0,
        }),
{
    DeterministicClockState {
        realtime_unix_nanos: 0,
        monotonic_nanos: 0,
        counter_frequency_hz: 1000000000,
        event_sequence: 0,
        timer_jump_count: 0,
        last_timer_deadline_ticks: 0,
    }
}

/// The keys of the clock's fields, in order.
pub open spec fn clock_keys() -> Seq<Seq<char>> {
    seq![
        "realtime_unix_nanos"@,
        "monotonic_nanos"@,
        "counter_frequency_hz"@,
        "event_sequence"@,
        "timer_jump_count"@,
        "last_timer_deadline_ticks"@,
    ]
}

/// The values of the clock's fields, in the order of their keys.
pub open spec fn clock_values(s: DeterministicClockState) -> Seq<u64> {
    seq![
        s.realtime_unix_nanos,
        s.monotonic_nanos,
        s.counter_frequency_hz,
        s.event_sequence,
        s.timer_jump_count,
        s.last_timer_deadline_ticks,
    ]
}

/// The fields of the clock's file.
pub open spec fn clock_fields(s: DeterministicClockState) -> Seq<(Seq<char>, Seq<char>)> {
    seq![
        ("clock_state"@, "deterministic-clock-state-v1"@),
        ("realtime_unix_nanos"@, text::dec(s.realtime_unix_nanos as nat)),
        ("monotonic_nanos"@, text::dec(s.monotonic_nanos as nat)),
        ("counter_frequency_hz"@, text::dec(s.counter_frequency_hz as nat)),
        ("event_sequence"@, text::dec(s.event_sequence as nat)),
        ("timer_jump_count"@, text::dec(s.timer_jump_count as nat)),
        ("last_timer_deadline_ticks"@, text::dec(s.last_timer_deadline_ticks as nat)),
    ]
}

/// Writes the clock's file.
pub fn deterministic_clock_state_content(state: &DeterministicClockState) -> (s: String)
    ensures
        s@ == stamps::stamp_text(clock_fields(*state)),
{
    let mut pairs: Vec<(&str, String)> = Vec::new();
    pairs.push(("clock_state", "deterministic-clock-state-v1".to_owned()));
    pairs.push(("realtime_unix_nanos", text::decimal(state.realtime_unix_nanos as u128)));
    pairs.push(("monotonic_nanos", text::decimal(state.monotonic_nanos as u128)));
    pairs.push(("counter_frequency_hz", text::decimal(state.counter_frequency_hz as u128)));
    pairs.push(("event_sequence", text::decimal(state.event_sequence as u128)));
    pairs.push(("timer_jump_count", text::decimal(state.timer_jump_count as u128)));
    pairs.push(
        ("last_timer_deadline_ticks", text::decimal(state.last_timer_deadline_ticks as u128)),
    );
    assert(stamps::borrowed_pairs(pairs@) =~= clock_fields(*state));
    stamps::write_stamp(&pairs)
}

/// Why a clock's file cannot be read.
#[derive(Debug, PartialEq, Eq)]
pub enum ClockStateError {
    MissingVersion,
    UnsupportedVersion(String),
    MissingField(String),
    BadField { key: String, value: String },
}

/// The number that a field holds.
pub open spec fn clock_field(fields: Map<Seq<char>, Seq<char>>, key: Seq<char>) -> Option<nat> {
    if fields.dom().contains(key) {
        text::parsed(fields[key], u64::MAX as nat)
    } else {
        None
    }
}

/// The version of the clock's file is the one that this library writes.
pub open spec fn clock_version_fits(fields: Map<Seq<char>, Seq<char>>) -> bool {
    fields.dom().contains("clock_state"@) && fields["clock_state"@]
        == "deterministic-clock-state-v1"@
}

/// `at` is the index of the first key, from the first on, without a number.
pub open spec fn first_bad_clock_field(fields: Map<Seq<char>, Seq<char>>, at: int) -> bool {
    &&& 0 <= at < clock_keys().len()
    &&& clock_field(fields, clock_keys()[at]) is None
    &&& forall|i: int| 0 <= i < at ==> clock_field(fields, #[trigger] clock_keys()[i]) is Some
}

/// The error for the first field that holds no number.
pub open spec fn is_clock_field_error(
    fields: Map<Seq<char>, Seq<char>>,
    at: int,
    e: ClockStateError,
) -> bool {
    let key = clock_keys()[at];
    if fields.dom().contains(key) {
        e matches ClockStateError::BadField { key: k, value } && k@ == key && value@ == fields[key]
    } else {
        e matches ClockStateError::MissingField(k) && k@ == key
    }
}

/// What reading a clock's file gives.
pub open spec fn is_parsed_clock(
    fields: Map<Seq<char>, Seq<char>>,
    r: Result<DeterministicClockState, ClockStateError>,
) -> bool {
    if !fields.dom().contains("clock_state"@) {
        r matches Err(ClockStateError::MissingVersion)
    } else if !clock_version_fits(fields) {
        r matches Err(ClockStateError::UnsupportedVersion(v)) && v@ == fields["clock_state"@]
    } else {
        match r {
            Ok(state) => forall|i: int|
                0 <= i < clock_keys().len() ==> clock_field(fields, #[trigger] clock_keys()[i])
                    == Some(clock_values(state)[i] as nat),
            Err(e) => exists|at: int|
                #[trigger] first_bad_clock_field(fields, at) && is_clock_field_error(fields, at, e),
        }
    }
}

fn parse_clock_state_u64(fields: &stamps::Fields, key: &str) -> (r: Result<u64, ClockStateError>)
    ensures
        match r {
            Ok(n) => clock_field(fields.map(), key@) == Some(n as nat),
            Err(e) => clock_field(fields.map(), key@) is None && if fields.map().dom().contains(
                key@,
            ) {
                e matches ClockStateError::BadField { key: k, value } && k@ == key@ && value@
                    == fields.map()[key@]
            } else {
                e matches ClockStateError::MissingField(k) && k@ == key@
            },
        },
{
    match fields.get(key) {
        None => Err(ClockStateError::MissingField(key.to_owned())),
        Some(value) => match text::parse(value, u64::MAX) {
            Some(n) => Ok(n),
            None => Err(
                ClockStateError::BadField { key: key.to_owned(), value: value.to_owned() },
            ),
        },
    }
}

/// Reads a clock's file.
pub fn parse_deterministic_clock_state(raw: &str) -> (r: Result<
    DeterministicClockState,
    ClockStateError,
>)
    ensures
        is_parsed_clock(stamps::fields_of(raw@), r),
{
    let fields = stamps::parse_shares_stamp(raw);
    let ghost m = fields.map();
    match fields.get("clock_state") {
        None => return Err(ClockStateError::MissingVersion),
        Some(version) => {
            if !text::same(version, "deterministic-clock-state-v1") {
                return Err(ClockStateError::UnsupportedVersion(version.to_owned()));
            }
        },
    }
    let realtime_unix_nanos: u64 = match parse_clock_state_u64(&fields, "realtime_unix_nanos") {
        Ok(n) => n,
        Err(e) => {
            assert(clock_keys()[0] == "realtime_unix_nanos"@);
            assert(first_bad_clock_field(m, 0));
            return Err(e);
        },
    };
    let monotonic_nanos: u64 = match parse_clock_state_u64(&fields, "monotonic_nanos") {
        Ok(n) => n,
        Err(e) => {
            assert(clock_keys()[1] == "monotonic_nanos"@);
            assert(first_bad_clock_field(m, 1));
            return Err(e);
        },
    };
    let counter_frequency_hz: u64 = match parse_clock_state_u64(&fields, "counter_frequency_hz") {
        Ok(n) => n,
        Err(e) => {
            assert(clock_keys()[2] == "counter_frequency_hz"@);
            assert(first_bad_clock_field(m, 2));
            return Err(e);
        },
    };
    let event_sequence: u64 = match parse_clock_state_u64(&fields, "event_sequence") {
        Ok(n) => n,
        Err(e) => {
            assert(clock_keys()[3] == "event_sequence"@);
            assert(first_bad_clock_field(m, 3));
            return Err(e);
        },
    };
    let timer_jump_count: u64 = match parse_clock_state_u64(&fields, "timer_jump_count") {
        Ok(n) => n,
        Err(e) => {
            assert(clock_keys()[4] == "timer_jump_count"@);
            assert(first_bad_clock_field(m, 4));
            return Err(e);
        },
    };
    let last_timer_deadline_ticks: u64 = match parse_clock_state_u64(
        &fields,
        "last_timer_deadline_ticks",
    ) {
        Ok(n) => n,
        Err(e) => {
            assert(clock_keys()[5] == "last_timer_deadline_ticks"@);
            assert(first_bad_clock_field(m, 5));
            return Err(e);
        },
    };
    Ok(
        DeterministicClockState {
            realtime_unix_nanos,
            monotonic_nanos,
            counter_frequency_hz,
            event_sequence,
            timer_jump_count,
            last_timer_deadline_ticks,
        },
    )
}


/// Reading a clock's file gives back the clock that was written.
#[verifier::spinoff_prover]
#[verifier::rlimit(40)]
pub proof fn lemma_clock_round_trip(
    state: DeterministicClockState,
    r: Result<DeterministicClockState, ClockStateError>,
)
    requires
        is_parsed_clock(stamps::fields_of(stamps::stamp_text(clock_fields(state))), r),
    ensures
        r == Ok::<DeterministicClockState, ClockStateError>(state),
{
    lemma_clock_reads_back(state);
    let m = stamps::fields_of(stamps::stamp_text(clock_fields(state)));
    match r {
        Ok(got) => {
            assert forall|i: int| 0 <= i < clock_keys().len() implies clock_values(got)[i]
                == clock_values(state)[i] by {
                assert(clock_field(m, clock_keys()[i]) == Some(clock_values(got)[i] as nat));
            }
            assert(clock_values(got)[0] == clock_values(state)[0]);
            assert(clock_values(got)[1] == clock_values(state)[1]);
            assert(clock_values(got)[2] == clock_values(state)[2]);
            assert(clock_values(got)[3] == clock_values(state)[3]);
            assert(clock_values(got)[4] == clock_values(state)[4]);
            assert(clock_values(got)[5] == clock_values(state)[5]);
        },
        Err(e) => {
            let at = choose|at: int|
                #[trigger] first_bad_clock_field(m, at) && is_clock_field_error(m, at, e);
            assert(clock_field(m, clock_keys()[at]) is Some);
        },
    }
}

#[verifier::spinoff_prover]
#[verifier::rlimit(40)]
proof fn lemma_clock_reads_back(state: DeterministicClockState)
    ensures
        clock_version_fits(stamps::fields_of(stamps::stamp_text(clock_fields(state)))),
        forall|i: int|
            0 <= i < clock_keys().len() ==> clock_field(
                stamps::fields_of(stamps::stamp_text(clock_fields(state))),
                #[trigger] clock_keys()[i],
            ) == Some(clock_values(state)[i] as nat),
{
    let pairs = clock_fields(state);
    lemma_clock_lines(state);
    stamps::lemma_stamp_round_trip(pairs);
    let m = stamps::pairs_map(pairs);
    assert forall|i: int| 0 <= i < pairs.len() implies m.dom().contains(#[trigger] pairs[i].0)
        && m[pairs[i].0] == pairs[i].1 by {
        stamps::lemma_pairs_map_lookup(pairs, i);
    }
    assert(pairs[0].0 == "clock_state"@);
    assert(clock_version_fits(m));
    assert forall|i: int| 0 <= i < clock_keys().len() implies clock_field(
        m,
        #[trigger] clock_keys()[i],
    ) == Some(clock_values(state)[i] as nat) by {
        assert(pairs[i + 1].0 == clock_keys()[i]);
        assert(pairs[i + 1].1 == text::dec(clock_values(state)[i] as nat));
        text::lemma_parse_decimal(clock_values(state)[i] as nat, u64::MAX as nat);
    }
}

#[verifier::spinoff_prover]
#[verifier::rlimit(40)]
proof fn lemma_clock_lines(state: DeterministicClockState)
    ensures
        forall|i: int|
            0 <= i < clock_fields(state).len() ==> stamps::is_line_field(
                #[trigger] clock_fields(state)[i].0,
                clock_fields(state)[i].1,
            ),
        forall|i: int, j: int|
            0 <= i < j < clock_fields(state).len() ==> clock_fields(state)[i].0 != clock_fields(
                state,
            )[j].0,
{
    let pairs = clock_fields(state);
    reveal_strlit("clock_state");
    reveal_strlit("deterministic-clock-state-v1");
    reveal_strlit("realtime_unix_nanos");
    reveal_strlit("monotonic_nanos");
    reveal_strlit("counter_frequency_hz");
    reveal_strlit("event_sequence");
    reveal_strlit("timer_jump_count");
    reveal_strlit("last_timer_deadline_ticks");
    assert forall|i: int| 0 <= i < pairs.len() implies stamps::is_line_field(
        #[trigger] pairs[i].0,
        pairs[i].1,
    ) by {
        if i > 0 {
            lemma_number_keeps_to_its_line(clock_values(state)[i - 1] as nat);
        }
    }
    assert forall|i: int, j: int| 0 <= i < j < pairs.len() implies pairs[i].0 != pairs[j].0 by {
        assert(pairs[i].0.len() != pairs[j].0.len());
    }
}

proof fn lemma_number_keeps_to_its_line(n: nat)
    ensures
        !text::dec(n).contains('\n'),
        text::dec(n).len() > 0,
        text::dec(n).last() != '\r',
{
    text::lemma_dec_round_trip(n);
    let s = text::dec(n);
    if s.contains('\n') {
        let i = choose|i: int| 0 <= i < s.len() && s[i] == '\n';
        assert(text::is_digit(s[i]));
    }
    assert(text::is_digit(s[s.len() - 1]));
}

/// Two stamps are equal exactly when they are of the same mode and the same seed.
pub proof fn lemma_stamp_identifies_the_seed(a: Option<Seq<char>>, b: Option<Seq<char>>)
    ensures
        stamp_of(a) == stamp_of(b) <==> a == b,
{
    if stamp_of(a) == stamp_of(b) {
        reveal_strlit("deterministic");
        reveal_strlit("enabled-v1");
        reveal_strlit("disabled-v1");
        let head = "deterministic"@ + seq!['='];
        assert(head.len() == 14);
        lemma_stamp_head(a);
        lemma_stamp_head(b);
        assert(stamp_of(a)[14] == stamp_of(b)[14]);
        match (a, b) {
            (Some(x), Some(y)) => {
                let rest = stamp_fields(a).skip(1).skip(1);
                assert(rest =~= stamp_fields(b).skip(1).skip(1));
                let pre = "deterministic"@ + seq!['='] + "enabled-v1"@ + seq!['\n'] + "seed"@
                    + seq!['='];
                let post = seq!['\n'] + stamps::stamp_text(rest);
                lemma_stamp_with_seed(x);
                lemma_stamp_with_seed(y);
                assert(stamp_of(a) =~= pre + x + post);
                assert(stamp_of(b) =~= pre + y + post);
                assert(x.len() == y.len());
                assert forall|i: int| 0 <= i < x.len() implies x[i] == y[i] by {
                    assert(stamp_of(a)[pre.len() + i] == x[i]);
                    assert(stamp_of(b)[pre.len() + i] == y[i]);
                }
                assert(x =~= y);
            },
            _ => {},
        }
    }
}

proof fn lemma_stamp_head(seed: Option<Seq<char>>)
    ensures
        stamp_of(seed).len() > 14,
        stamp_of(seed)[14] == (if seed is Some {
            'e'
        } else {
            'd'
        }),
{
    reveal_strlit("deterministic");
    reveal_strlit("enabled-v1");
    reveal_strlit("disabled-v1");
    let pairs = stamp_fields(seed);
    assert(stamps::stamp_text(pairs) == pairs[0].0 + seq!['='] + pairs[0].1 + seq!['\n']
        + stamps::stamp_text(pairs.skip(1)));
}

proof fn lemma_stamp_with_seed(seed: Seq<char>)
    ensures
        stamp_of(Some(seed)) == "deterministic"@ + seq!['='] + "enabled-v1"@ + seq!['\n'] + "seed"@
            + seq!['='] + seed + (seq!['\n'] + stamps::stamp_text(
            stamp_fields(Some(seed)).skip(1).skip(1),
        )),
{
    let pairs = stamp_fields(Some(seed));
    let tail = pairs.skip(1);
    assert(tail[0] == ("seed"@, seed));
    assert(stamps::stamp_text(pairs) =~= "deterministic"@ + seq!['='] + "enabled-v1"@ + seq!['\n']
        + stamps::stamp_text(tail));
    assert(stamps::stamp_text(tail) =~= "seed"@ + seq!['='] + seed + seq!['\n']
        + stamps::stamp_text(tail.skip(1)));
    assert(stamp_of(Some(seed)) =~= "deterministic"@ + seq!['='] + "enabled-v1"@ + seq!['\n']
        + "seed"@ + seq!['='] + seed + (seq!['\n'] + stamps::stamp_text(tail.skip(1))));
}

/// Why a deterministic VM has no clock to start with.
#[derive(Debug, PartialEq, Eq)]
pub struct ClockStartError {
    /// The file of the clock.
    pub path: String,
    pub cause: ClockStartCause,
}

#[derive(Debug, PartialEq, Eq)]
pub enum ClockStartCause {
    Missing,
    Unreadable(String),
    Invalid(ClockStateError),
}

impl ClockStartError {
    /// The message shown to the user.
    pub fn message(&self) -> (m: String)
        ensures
            m@ == "read "@ + self.path@,
    {
        let mut m: String = "read ".to_owned();
        m.append(self.path.as_str());
        m
    }
}

/// The clock that a VM starts with: none when it is not deterministic, the initial one
/// when it boots cold, and otherwise the one in the snapshot that it is restored from.
/// `file` is what came of reading the clock's file in that snapshot.
pub fn deterministic_clock_state_for_start(
    deterministic: Option<&DeterministicConfig>,
    restore_snapshot: Option<&str>,
    file: &FileText,
) -> (r: Result<Option<DeterministicClockState>, ClockStartError>)
    ensures
        deterministic is None ==> r == Ok::<Option<DeterministicClockState>, ClockStartError>(None),
        deterministic is Some && restore_snapshot is None ==> (r matches Ok(Some(s)) && s == (
        DeterministicClockState {
            realtime_unix_nanos: 0,
            monotonic_nanos: 0,
            counter_frequency_hz: 1000000000,
            event_sequence: 0,
            timer_jump_count: 0,
            last_timer_deadline_ticks: 0,
        })),
        deterministic is Some ==> (restore_snapshot matches Some(snapshot) ==> match r {
            Ok(None) => false,
            Ok(Some(s)) => *file matches FileText::Found(raw) && is_parsed_clock(
                stamps::fields_of(raw@),
                Ok(s),
            ),
            Err(e) => e.path@ == paths::joined(snapshot@, DETERMINISTIC_CLOCK_STATE@)
                && match *file {
                FileText::Found(raw) => e.cause matches ClockStartCause::Invalid(cause)
                    && is_parsed_clock(stamps::fields_of(raw@), Err(cause)),
                FileText::Missing => e.cause is Missing,
                FileText::Failed(why) => e.cause matches ClockStartCause::Unreadable(text)
                    && text@ == why@,
            },
        }),
{
    if deterministic.is_none() {
        return Ok(None);
    }
    let snapshot: &str = match restore_snapshot {
        None => return Ok(Some(initial_deterministic_clock_state())),
        Some(snapshot) => snapshot,
    };
    let path: String = paths::join(snapshot, DETERMINISTIC_CLOCK_STATE);
    match file {
        FileText::Missing => Err(ClockStartError { path, cause: ClockStartCause::Missing }),
        FileText::Failed(why) => Err(
            ClockStartError { path, cause: ClockStartCause::Unreadable(why.clone()) },
        ),
        FileText::Found(raw) => match parse_deterministic_clock_state(raw.as_str()) {
            Ok(state) => Ok(Some(state)),
            Err(cause) => Err(ClockStartError { path, cause: ClockStartCause::Invalid(cause) }),
        },
    }
}

/// The clock with the number of the next trace event written into it, so that a
/// restored VM goes on counting there.
pub fn with_event_sequence(state: DeterministicClockState, next: u64) -> (
    r: DeterministicClockState)
    ensures
        r == (DeterministicClockState { event_sequence: next, ..state }),
{
    DeterministicClockState {
        realtime_unix_nanos: state.realtime_unix_nanos,
        monotonic_nanos: state.monotonic_nanos,
        counter_frequency_hz: state.counter_frequency_hz,
        event_sequence: next,
        timer_jump_count: state.timer_jump_count,
        last_timer_deadline_ticks: state.last_timer_deadline_ticks,
    }
}

// ---------------------------------------------------------------------------
// Timer jumps
// ---------------------------------------------------------------------------

/// A jump of the virtual clock to the deadline of a timer.
#[derive(Clone, Copy, PartialEq, Eq, Structural, Debug)]
pub struct TimerJump {
    pub deadline_ticks: u64,
    pub counter_frequency_hz: u64,
    pub deadline_nanos: u64,
}

/// The number of a field among words of the form `key=number`; of several the last
/// counts. A word of another form says nothing.
pub open spec fn jump_field(words: Seq<Seq<char>>, key: Seq<char>) -> Option<nat>
    decreases words.len(),
{
    if words.len() == 0 {
        None
    } else {
        match text::split_once_on(words.last(), '=') {
            Some((k, v)) => if k == key && text::parsed(v, u64::MAX as nat) is Some {
                text::parsed(v, u64::MAX as nat)
            } else {
                jump_field(words.drop_last(), key)
            },
            None => jump_field(words.drop_last(), key),
        }
    }
}

/// The jump that a line records: all three fields must be there.
pub open spec fn jump_of_line(line: Seq<char>) -> Option<TimerJump> {
    let words = text::words_of(line);
    match (
        jump_field(words, "deadline_ticks"@),
        jump_field(words, "counter_frequency_hz"@),
        jump_field(words, "deadline_nanos"@),
    ) {
        (Some(ticks), Some(hz), Some(nanos)) => Some(
            TimerJump {
                deadline_ticks: ticks as u64,
                counter_frequency_hz: hz as u64,
                deadline_nanos: nanos as u64,
            },
        ),
        _ => None,
    }
}

fn field_of_words(words: &Vec<String>, key: &str) -> (r: Option<u64>)
    ensures
        match r {
            Some(n) => jump_field(text::views(words@).reverse(), key@) == Some(n as nat),
            None => jump_field(text::views(words@).reverse(), key@) is None,
        },
{
    let ghost all = text::views(words@).reverse();
    let mut i: usize = 0;
    assert(all.take(all.len() as int) =~= all);
    while i < words.len()
        invariant
            i <= words@.len(),
            all == text::views(words@).reverse(),
            jump_field(all, key@) == jump_field(all.take(words@.len() - i), key@),
        decreases words@.len() - i,
    {
        proof {
            let t = all.take(words@.len() - i);
            assert(t.drop_last() =~= all.take(words@.len() - i - 1));
            assert(t.last() == words@[i as int]@);
        }
        if let Some((k, v)) = text::split_once(words[i].as_str(), '=') {
            if text::same(k, key) {
                if let Some(n) = text::parse(v, u64::MAX) {
                    return Some(n);
                }
            }
        }
        i = i + 1;
    }
    assert(all.take(0) =~= Seq::<Seq<char>>::empty());
    None
}

/// Reads the jump that a line records.
pub fn parse_timer_jump_line(line: &str) -> (r: Option<TimerJump>)
    ensures
        r == jump_of_line(line@),
{
    let words: Vec<String> = text::words_backwards(line);
    assert(text::views(words@).reverse() =~= text::words_of(line@));
    let ticks: Option<u64> = field_of_words(&words, "deadline_ticks");
    let hz: Option<u64> = field_of_words(&words, "counter_frequency_hz");
    let nanos: Option<u64> = field_of_words(&words, "deadline_nanos");
    match (ticks, hz, nanos) {
        (Some(deadline_ticks), Some(counter_frequency_hz), Some(deadline_nanos)) => Some(
            TimerJump { deadline_ticks, counter_frequency_hz, deadline_nanos },
        ),
        _ => None,
    }
}

/// The jumps that lines record, in order.
pub open spec fn jumps_of_lines(lines: Seq<Seq<char>>) -> Seq<TimerJump>
    decreases lines.len(),
{
    if lines.len() == 0 {
        Seq::empty()
    } else {
        let rest = jumps_of_lines(lines.drop_last());
        match jump_of_line(lines.last()) {
            Some(jump) => rest.push(jump),
            None => rest,
        }
    }
}

/// The jumps of two lists of lines are those of both, in order, and those of a single line
/// are the one that it records, if it records one.
pub proof fn lemma_jumps_of_lines(a: Seq<Seq<char>>, b: Seq<Seq<char>>, line: Seq<char>)
    ensures
        jumps_of_lines(a + b) == jumps_of_lines(a) + jumps_of_lines(b),
        jumps_of_lines(seq![line]) == (match jump_of_line(line) {
            Some(jump) => seq![jump],
            None => Seq::empty(),
        }),
        jumps_of_lines(Seq::empty()) == Seq::<TimerJump>::empty(),
    decreases b.len(),
{
    let none = Seq::<TimerJump>::empty();
    assert(seq![line].drop_last() =~= Seq::<Seq<char>>::empty());
    assert(jumps_of_lines(Seq::<Seq<char>>::empty()) == none);
    assert(jumps_of_lines(seq![line]) =~= (match jump_of_line(line) {
        Some(jump) => seq![jump],
        None => none,
    }));
    if b.len() == 0 {
        assert(a + b =~= a);
        assert(jumps_of_lines(a) + none =~= jumps_of_lines(a));
    } else {
        lemma_jumps_of_lines(a, b.drop_last(), line);
        assert((a + b).drop_last() =~= a + b.drop_last());
        assert((a + b).last() == b.last());
        assert(jumps_of_lines(a + b) =~= jumps_of_lines(a) + jumps_of_lines(b));
    }
}

/// Every jump of a log is imported, in order: the jumps of a log that goes on behind a line
/// end are those before it and then those behind it.
pub proof fn lemma_every_jump_is_imported(before: Seq<char>, behind: Seq<char>)
    requires
        before.len() == 0 || before.last() == '\n',
    ensures
        jumps_of_lines(text::lines_of(before + behind)) == jumps_of_lines(text::lines_of(before))
            + jumps_of_lines(text::lines_of(behind)),
{
    text::lemma_lines_of_two(before, behind);
    lemma_jumps_of_lines(text::lines_of(before), text::lines_of(behind), Seq::empty());
}

/// A field among words is that of the last word that gives it: words behind win over words
/// before, and a single word gives its number under its key and nothing under another.
pub proof fn lemma_jump_field(
    a: Seq<Seq<char>>,
    b: Seq<Seq<char>>,
    word: Seq<char>,
    value: nat,
    key: Seq<char>,
)
    requires
        !word.contains('='),
        value <= u64::MAX,
    ensures
        jump_field(a + b, key) == (if jump_field(b, key) is Some {
            jump_field(b, key)
        } else {
            jump_field(a, key)
        }),
        jump_field(seq![word + seq!['='] + text::dec(value)], key) == (if key == word {
            Some(value)
        } else {
            None::<nat>
        }),
        jump_field(seq![word], key) == None::<nat>,
        jump_field(Seq::empty(), key) == None::<nat>,
    decreases b.len(),
{
    let none = Seq::<Seq<char>>::empty();
    let pair = word + seq!['='] + text::dec(value);
    assert(jump_field(none, key) == None::<nat>);
    assert(seq![pair].drop_last() =~= none);
    assert(seq![word].drop_last() =~= none);
    text::lemma_split_once_pair(word, '=', text::dec(value));
    text::lemma_parse_decimal(value, u64::MAX as nat);
    text::lemma_first_index_is_first(word, '=');
    if text::first_index(word, '=') < word.len() {
        assert(word.contains(word[text::first_index(word, '=')]));
    }
    if b.len() == 0 {
        assert(a + b =~= a);
    } else {
        lemma_jump_field(a, b.drop_last(), word, value, key);
        assert((a + b).drop_last() =~= a + b.drop_last());
        assert((a + b).last() == b.last());
    }
}

proof fn lemma_no_space_in_pair(key: Seq<char>, value: nat)
    requires
        text::no_space(key),
    ensures
        text::no_space(key + seq!['='] + text::dec(value)),
{
    let pair = key + seq!['='] + text::dec(value);
    let d = text::dec(value);
    text::lemma_dec_round_trip(value);
    assert forall|i: int| 0 <= i < pair.len() implies !text::is_space(#[trigger] pair[i]) by {
        if i < key.len() {
            assert(pair[i] == key[i]);
        } else if i > key.len() {
            assert(pair[i] == d[i - key.len() - 1]);
            assert(text::is_digit(d[i - key.len() - 1]));
        }
    }
}

/// A line that gives a deadline in ticks, a frequency and a deadline in nanoseconds records
/// the jump with these numbers.
pub proof fn lemma_recorded_jump(ticks: u64, hz: u64, nanos: u64)
    ensures
        jump_of_line(
            "deadline_ticks"@ + seq!['='] + text::dec(ticks as nat) + seq![' ']
                + "counter_frequency_hz"@ + seq!['='] + text::dec(hz as nat) + seq![' ']
                + "deadline_nanos"@ + seq!['='] + text::dec(nanos as nat),
        ) == Some(
            TimerJump { deadline_ticks: ticks, counter_frequency_hz: hz, deadline_nanos: nanos },
        ),
{
    reveal_strlit("deadline_ticks");
    reveal_strlit("counter_frequency_hz");
    reveal_strlit("deadline_nanos");
    let (k1, k2, k3) = ("deadline_ticks"@, "counter_frequency_hz"@, "deadline_nanos"@);
    assert(k1.len() == 14 && k2.len() == 20 && k3.len() == 14);
    assert(k1[9] == 't' && k3[9] == 'n');
    let w1 = k1 + seq!['='] + text::dec(ticks as nat);
    let w2 = k2 + seq!['='] + text::dec(hz as nat);
    let w3 = k3 + seq!['='] + text::dec(nanos as nat);
    assert(text::no_space(k1) && text::no_space(k2) && text::no_space(k3));
    lemma_no_space_in_pair(k1, ticks as nat);
    lemma_no_space_in_pair(k2, hz as nat);
    lemma_no_space_in_pair(k3, nanos as nat);
    text::lemma_words_of_one(w1);
    text::lemma_words_of_one(w2);
    text::lemma_words_of_one(w3);
    text::lemma_words_of_two(w1, ' ', w2);
    let front = w1 + seq![' '] + w2;
    text::lemma_words_of_two(front, ' ', w3);
    let line = front + seq![' '] + w3;
    assert(line =~= "deadline_ticks"@ + seq!['='] + text::dec(ticks as nat) + seq![' ']
        + "counter_frequency_hz"@ + seq!['='] + text::dec(hz as nat) + seq![' ']
        + "deadline_nanos"@ + seq!['='] + text::dec(nanos as nat));
    assert(text::words_of(line) == seq![w1] + seq![w2] + seq![w3]);
    assert(!k1.contains('=') && !k2.contains('=') && !k3.contains('='));
    lemma_three_fields(k1, ticks as nat, k2, hz as nat, k3, nanos as nat, k1);
    lemma_three_fields(k1, ticks as nat, k2, hz as nat, k3, nanos as nat, k2);
    lemma_three_fields(k1, ticks as nat, k2, hz as nat, k3, nanos as nat, k3);
}

proof fn lemma_three_fields(
    k1: Seq<char>,
    v1: nat,
    k2: Seq<char>,
    v2: nat,
    k3: Seq<char>,
    v3: nat,
    key: Seq<char>,
)
    requires
        !k1.contains('='),
        !k2.contains('='),
        !k3.contains('='),
        v1 <= u64::MAX,
        v2 <= u64::MAX,
        v3 <= u64::MAX,
    ensures
        jump_field(
            seq![k1 + seq!['='] + text::dec(v1)] + seq![k2 + seq!['='] + text::dec(v2)] + seq![
                k3 + seq!['='] + text::dec(v3),
            ],
            key,
        ) == (if key == k3 {
            Some(v3)
        } else if key == k2 {
            Some(v2)
        } else if key == k1 {
            Some(v1)
        } else {
            None
        }),
{
    let w1 = seq![k1 + seq!['='] + text::dec(v1)];
    let w2 = seq![k2 + seq!['='] + text::dec(v2)];
    let w3 = seq![k3 + seq!['='] + text::dec(v3)];
    lemma_jump_field(w1 + w2, w3, k3, v3, key);
    lemma_jump_field(w1, w2, k2, v2, key);
    lemma_jump_field(w1, w2, k1, v1, key);
}

/// A line records a jump exactly when each of the three fields stands among its words.
pub proof fn lemma_line_records_a_jump(line: Seq<char>)
    ensures
        jump_of_line(line) is Some <==> {
            &&& jump_field(text::words_of(line), "deadline_ticks"@) is Some
            &&& jump_field(text::words_of(line), "counter_frequency_hz"@) is Some
            &&& jump_field(text::words_of(line), "deadline_nanos"@) is Some
        },
{
}

/// How many bytes lines take with one byte for the end of each.
pub open spec fn lines_size(lines: Seq<Seq<char>>) -> nat
    decreases lines.len(),
{
    if lines.len() == 0 {
        0
    } else {
        lines_size(lines.drop_last()) + vstd::utf8::encode_utf8(lines.last()).len() + 1
    }
}

/// The jumps in the part of a log that was not read yet, and how far the log is then
/// read.
#[derive(Debug, PartialEq, Eq)]
pub struct TimerJumpImport {
    pub jumps: Vec<TimerJump>,
    pub cursor: u64,
}

/// Where reading a log of `size` bytes starts: at the recorded cursor, but not beyond
/// the end; at the beginning when no cursor is recorded.
pub open spec fn import_start(cursor: Option<Seq<char>>, size: nat) -> nat {
    match cursor {
        Some(raw) => match text::parsed(text::trimmed(raw), u64::MAX as nat) {
            Some(at) => if at < size {
                at
            } else {
                size
            },
            None => 0,
        },
        None => 0,
    }
}

/// Where reading a log of `size` bytes starts.
pub fn timer_jump_start(cursor: Option<&str>, size: u64) -> (start: u64)
    ensures
        start == import_start(
            match cursor {
                Some(raw) => Some(raw@),
                None => None,
            },
            size as nat,
        ),
{
    match cursor {
        Some(raw) => match text::parse(text::trim(raw), u64::MAX) {
            Some(at) => if at < size {
                at
            } else {
                size
            },
            None => 0,
        },
        None => 0,
    }
}

/// Reads the jumps in `unread`, the part of the log from byte `start` on. The cursor
/// then stands behind its lines, each counted with one byte for its end.
pub fn import_timer_jumps(unread: &str, start: u64) -> (r: TimerJumpImport)
    ensures
        r.jumps@ == jumps_of_lines(text::lines_of(unread@)),
        r.cursor == (if start + lines_size(text::lines_of(unread@)) <= u64::MAX {
            start + lines_size(text::lines_of(unread@))
        } else {
            u64::MAX as int
        }),
{
    let lines: Vec<String> = text::lines(unread);
    let ghost all = text::lines_of(unread@);
    let mut jumps: Vec<TimerJump> = Vec::new();
    let mut cursor: u64 = start;
    let mut i: usize = 0;
    while i < lines.len()
        invariant
            i <= lines@.len(),
            text::views(lines@) == all,
            jumps@ == jumps_of_lines(all.take(i as int)),
            cursor == (if start + lines_size(all.take(i as int)) <= u64::MAX {
                start + lines_size(all.take(i as int))
            } else {
                u64::MAX as int
            }),
        decreases lines@.len() - i,
    {
        let line: &str = lines[i].as_str();
        proof {
            let next = all.take(i + 1);
            assert(next.drop_last() =~= all.take(i as int));
            assert(next.last() == line@);
        }
        let size: usize = line.as_bytes().len();
        cursor = cursor.saturating_add(size as u64).saturating_add(1);
        if let Some(jump) = parse_timer_jump_line(line) {
            jumps.push(jump);
        }
        i = i + 1;
    }
    assert(all.take(i as int) =~= all);
    TimerJumpImport { jumps, cursor }
}

/// The UTF-8 form of two texts one after the other.
proof fn lemma_utf8_concat(a: Seq<char>, b: Seq<char>)
    ensures
        vstd::utf8::encode_utf8(a + b) == vstd::utf8::encode_utf8(a) + vstd::utf8::encode_utf8(b),
    decreases a.len(),
{
    if a.len() == 0 {
        assert(a + b =~= b);
        assert(vstd::utf8::encode_utf8(a) =~= Seq::<u8>::empty());
        assert(Seq::<u8>::empty() + vstd::utf8::encode_utf8(b) =~= vstd::utf8::encode_utf8(b));
    } else {
        lemma_utf8_concat(a.drop_first(), b);
        assert((a + b).drop_first() =~= a.drop_first() + b);
        assert(vstd::utf8::encode_utf8(a + b) =~= vstd::utf8::encode_utf8(a)
            + vstd::utf8::encode_utf8(b));
    }
}

proof fn lemma_newline_is_one_byte()
    ensures
        vstd::utf8::encode_utf8(seq!['\n']).len() == 1,
{
    vstd::utf8::is_ascii_chars_encode_utf8(seq!['\n']);
}

/// Lines that end in `\n` and hold no carriage return take as many bytes as the text.
proof fn lemma_lines_size(s: Seq<char>)
    requires
        !s.contains('\r'),
        s.len() == 0 || s.last() == '\n',
    ensures
        lines_size(text::lines_of(s)) == vstd::utf8::encode_utf8(s).len(),
    decreases s.len(),
{
    if s.len() == 0 {
        assert(s =~= Seq::<char>::empty());
        text::lemma_lines_of_empty();
    } else {
        text::lemma_first_index_is_first(s, '\n');
        let i = text::first_index(s, '\n');
        if i == s.len() {
            assert(s[s.len() - 1] == '\n');
            assert(false);
        }
        let line = s.take(i);
        let rest = s.skip(i + 1);
        assert(s =~= line + seq!['\n'] + rest);
        assert(!line.contains('\n')) by {
            if line.contains('\n') {
                let j = choose|j: int| 0 <= j < line.len() && line[j] == '\n';
                assert(s[j] == '\n');
            }
        }
        assert(!rest.contains('\r')) by {
            if rest.contains('\r') {
                let j = choose|j: int| 0 <= j < rest.len() && rest[j] == '\r';
                assert(s[i + 1 + j] == '\r');
            }
        }
        if line.len() > 0 {
            assert(line.last() == s[i - 1]);
            assert(s.contains(s[i - 1]));
        }
        if rest.len() > 0 {
            assert(rest.last() == s.last());
        }
        lemma_lines_size(rest);
        text::lemma_lines_cons(line, rest);
        lemma_lines_size_cons(line, text::lines_of(rest));
        lemma_utf8_concat(line + seq!['\n'], rest);
        lemma_utf8_concat(line, seq!['\n']);
        lemma_newline_is_one_byte();
    }
}

proof fn lemma_lines_size_cons(line: Seq<char>, rest: Seq<Seq<char>>)
    ensures
        lines_size(seq![line] + rest) == vstd::utf8::encode_utf8(line).len() + 1 + lines_size(rest),
    decreases rest.len(),
{
    let all = seq![line] + rest;
    if rest.len() == 0 {
        assert(all.drop_last() =~= Seq::<Seq<char>>::empty());
        assert(all.last() == line);
        assert(lines_size(all.drop_last()) == 0);
    } else {
        lemma_lines_size_cons(line, rest.drop_last());
        assert(all.drop_last() =~= seq![line] + rest.drop_last());
        assert(all.last() == rest.last());
    }
}

/// Each jump of a log is imported once: after an import of the whole unread part of a
/// log whose lines all end in `\n`, the cursor stands at its end, so that importing again
/// starts there and finds nothing.
pub proof fn lemma_timer_jumps_are_imported_once(unread: Seq<char>, start: nat, size: nat)
    requires
        !unread.contains('\r'),
        unread.len() == 0 || unread.last() == '\n',
        size == start + vstd::utf8::encode_utf8(unread).len(),
        size <= u64::MAX,
    ensures
        start + lines_size(text::lines_of(unread)) == size,
        import_start(Some(text::dec(size)), size) == size,
        jumps_of_lines(text::lines_of(Seq::empty())) == Seq::<TimerJump>::empty(),
{
    lemma_lines_size(unread);
    text::lemma_lines_of_empty();
    text::lemma_parse_decimal(size, u64::MAX as nat);
    text::lemma_dec_round_trip(size);
    let d = text::dec(size);
    assert(text::is_digit(d[0]) && text::is_digit(d[d.len() - 1]));
    assert(text::trimmed_start(d) == d);
    assert(text::trimmed_end(d) == d);
}

// ---------------------------------------------------------------------------
// Derived identifiers and entropy
// ---------------------------------------------------------------------------

/// The bytes of a text.
pub open spec fn utf8(s: Seq<char>) -> Seq<u8> {
    vstd::utf8::encode_utf8(s)
}

/// What is hashed for the block of restore entropy with a number.
pub open spec fn entropy_input(seed: Seq<char>, counter: nat) -> Seq<u8> {
    utf8("lnx deterministic restore entropy v1\0"@) + utf8(seed) + utf8("\0"@) + bytes::le_bytes(
        counter,
        8,
    )
}

/// The entropy that a restored guest is given in deterministic mode.
pub open spec fn entropy_of(seed: Seq<char>) -> Seq<u8> {
    digest::sha256_of(entropy_input(seed, 0)) + digest::sha256_of(entropy_input(seed, 1))
}

/// What is hashed for a block of restore entropy.
pub fn restore_entropy_input(seed: &str, counter: u64) -> (r: Vec<u8>)
    ensures
        r@ == entropy_input(seed@, counter as nat),
{
    let mut r: Vec<u8> = Vec::new();
    bytes::push_all(&mut r, "lnx deterministic restore entropy v1\0".as_bytes());
    bytes::push_all(&mut r, seed.as_bytes());
    bytes::push_all(&mut r, "\0".as_bytes());
    bytes::push_le(&mut r, counter, 8);
    assert(r@ =~= entropy_input(seed@, counter as nat));
    r
}

/// The entropy that a restored guest is given in deterministic mode: it depends on the
/// seed alone.
pub fn deterministic_restore_entropy(seed: &str) -> (r: Vec<u8>)
    ensures
        r@ == entropy_of(seed@),
        r@.len() == RESTORE_ENTROPY_BYTES,
{
    let mut entropy: Vec<u8> = digest::digest(restore_entropy_input(seed, 0).as_slice());
    let second: Vec<u8> = digest::digest(restore_entropy_input(seed, 1).as_slice());
    bytes::push_all(&mut entropy, second.as_slice());
    entropy
}

/// Two seeds are hashed as different bytes. So they give the same entropy only if SHA-256
/// gives the same digest for different bytes, in both blocks.
pub proof fn lemma_entropy_tells_seeds_apart(a: Seq<char>, b: Seq<char>)
    ensures
        forall|counter: nat| #[trigger]
            entropy_input(a, counter) == entropy_input(b, counter) <==> a == b,
        digest::sha256_of(entropy_input(a, 0)).len() == digest::sha256_of(
            entropy_input(b, 0),
        ).len() && entropy_of(a) == entropy_of(b) ==> {
            &&& digest::sha256_of(entropy_input(a, 0)) == digest::sha256_of(entropy_input(b, 0))
            &&& digest::sha256_of(entropy_input(a, 1)) == digest::sha256_of(entropy_input(b, 1))
        },
{
    let head = utf8("lnx deterministic restore entropy v1\0"@);
    assert forall|counter: nat| #[trigger]
        entropy_input(a, counter) == entropy_input(b, counter) implies a == b by {
        let (x, y) = (entropy_input(a, counter), entropy_input(b, counter));
        let tail = utf8("\0"@).len() + bytes::le_bytes(counter, 8).len();
        assert(x.len() == head.len() + utf8(a).len() + tail);
        assert(y.len() == head.len() + utf8(b).len() + tail);
        let end = head.len() + utf8(a).len() as int;
        assert(x.subrange(head.len() as int, end) =~= utf8(a));
        assert(y.subrange(head.len() as int, end) =~= utf8(b));
        vstd::utf8::encode_utf8_decode_utf8(a);
        vstd::utf8::encode_utf8_decode_utf8(b);
    }
    let (p, q) = (digest::sha256_of(entropy_input(a, 0)), digest::sha256_of(entropy_input(b, 0)));
    let (r, t) = (digest::sha256_of(entropy_input(a, 1)), digest::sha256_of(entropy_input(b, 1)));
    if p.len() == q.len() && entropy_of(a) == entropy_of(b) {
        assert((p + r).take(p.len() as int) =~= p);
        assert((q + t).take(q.len() as int) =~= q);
        assert((p + r).skip(p.len() as int) =~= r);
        assert((q + t).skip(q.len() as int) =~= t);
    }
}

/// The entropy that a restored guest is given: derived from the seed in deterministic
/// mode, and otherwise the host's own.
pub fn restore_entropy(config: Option<&DeterministicConfig>, host: Vec<u8>) -> (r: Vec<u8>)
    ensures
        match config {
            Some(c) => r@ == entropy_of(c.seed@),
            None => r == host,
        },
{
    match config {
        Some(config) => deterministic_restore_entropy(config.seed.as_str()),
        None => host,
    }
}

/// The request id that a digest gives: its first eight bytes, little-endian, but never
/// zero.
pub open spec fn id_of_digest(d: Seq<u8>) -> nat {
    let id = bytes::le_value(d.take(8));
    if id == 0 {
        1
    } else {
        id
    }
}

/// The request id that a digest gives.
pub fn request_id_from_digest(d: &Vec<u8>) -> (id: u64)
    requires
        d@.len() >= 8,
    ensures
        id == id_of_digest(d@),
        id != 0,
{
    let head: Vec<u8> = bytes::part(d.as_slice(), 0, 8);
    assert(d@.subrange(0, 8) =~= d@.take(8));
    let id: u64 = bytes::read_le(head.as_slice());
    if id == 0 {
        1
    } else {
        id
    }
}

/// What is hashed for the arguments of a command.
pub open spec fn args_input(args: Seq<Seq<char>>) -> Seq<u8>
    decreases args.len(),
{
    if args.len() == 0 {
        Seq::empty()
    } else {
        args_input(args.drop_last()) + utf8("\0arg\0"@) + utf8(args.last())
    }
}

/// A flag as a byte.
pub open spec fn flag(b: bool) -> Seq<u8> {
    seq![
        if b {
            1u8
        } else {
            0u8
        },
    ]
}

/// What is hashed for the request id of a command.
pub open spec fn exec_input(
    seed: Seq<char>,
    command: Seq<Seq<char>>,
    guest_cwd: Seq<char>,
    run_as_root: bool,
    pty: bool,
    rows: u16,
    cols: u16,
) -> Seq<u8> {
    utf8("lnx deterministic exec request id v1\0"@) + utf8(seed) + utf8("\0cwd\0"@) + utf8(
        guest_cwd,
    ) + utf8("\0root\0"@) + flag(run_as_root) + utf8("\0pty\0"@) + flag(pty) + utf8("\0rows\0"@)
        + bytes::le_bytes(rows as nat, 2) + utf8("\0cols\0"@) + bytes::le_bytes(cols as nat, 2)
        + args_input(command)
}

/// What is hashed for the request id of a command.
pub fn exec_request_input(
    seed: &str,
    command: &Vec<String>,
    guest_cwd: &str,
    run_as_root: bool,
    pty: bool,
    rows: u16,
    cols: u16,
) -> (r: Vec<u8>)
    ensures
        r@ == exec_input(
            seed@,
            text::views(command@),
            guest_cwd@,
            run_as_root,
            pty,
            rows,
            cols,
        ),
{
    let mut r: Vec<u8> = Vec::new();
    bytes::push_all(&mut r, "lnx deterministic exec request id v1\0".as_bytes());
    assert(r@ =~= utf8("lnx deterministic exec request id v1\0"@));
    bytes::push_all(&mut r, seed.as_bytes());
    bytes::push_all(&mut r, "\0cwd\0".as_bytes());
    bytes::push_all(&mut r, guest_cwd.as_bytes());
    bytes::push_all(&mut r, "\0root\0".as_bytes());
    let ghost before = r@;
    r.push(if run_as_root {
        1
    } else {
        0
    });
    assert(r@ =~= before + flag(run_as_root));
    bytes::push_all(&mut r, "\0pty\0".as_bytes());
    let ghost before = r@;
    r.push(if pty {
        1
    } else {
        0
    });
    assert(r@ =~= before + flag(pty));
    bytes::push_all(&mut r, "\0rows\0".as_bytes());
    bytes::push_le(&mut r, rows as u64, 2);
    bytes::push_all(&mut r, "\0cols\0".as_bytes());
    bytes::push_le(&mut r, cols as u64, 2);
    let ghost head = r@;
    let ghost all = text::views(command@);
    let mut i: usize = 0;
    assert(head + args_input(all.take(0)) =~= head);
    while i < command.len()
        invariant
            i <= command@.len(),
            all == text::views(command@),
            r@ == head + args_input(all.take(i as int)),
        decreases command@.len() - i,
    {
        proof {
            let next = all.take(i + 1);
            assert(next.drop_last() =~= all.take(i as int));
            assert(next.last() == command@[i as int]@);
            assert(head + args_input(next) =~= head + args_input(all.take(i as int)) + utf8(
                "\0arg\0"@,
            ) + utf8(command@[i as int]@));
        }
        bytes::push_all(&mut r, "\0arg\0".as_bytes());
        bytes::push_all(&mut r, command[i].as_str().as_bytes());
        i = i + 1;
    }
    assert(all.take(i as int) =~= all);
    r
}

/// The request id of a command in deterministic mode: it depends on the seed and the
/// command's context alone, and is never zero.
pub fn deterministic_exec_request_id(
    seed: &str,
    command: &Vec<String>,
    guest_cwd: &str,
    run_as_root: bool,
    pty: bool,
    rows: u16,
    cols: u16,
) -> (id: u64)
    ensures
        id == id_of_digest(
            digest::sha256_of(
                exec_input(
                    seed@,
                    text::views(command@),
                    guest_cwd@,
                    run_as_root,
                    pty,
                    rows,
                    cols,
                ),
            ),
        ),
        id != 0,
{
    let input: Vec<u8> = exec_request_input(
        seed,
        command,
        guest_cwd,
        run_as_root,
        pty,
        rows,
        cols,
    );
    request_id_from_digest(&digest::digest(input.as_slice()))
}

/// What is hashed for the request id of a restore sync.
pub open spec fn restore_sync_input(seed: Seq<char>) -> Seq<u8> {
    utf8("lnx deterministic restore-sync request id v1\0"@) + utf8(seed)
}

/// The request id of a restore sync in deterministic mode.
pub fn deterministic_restore_sync_request_id(seed: &str) -> (id: u64)
    ensures
        id == id_of_digest(digest::sha256_of(restore_sync_input(seed@))),
        id != 0,
{
    let mut input: Vec<u8> = Vec::new();
    bytes::push_all(&mut input, "lnx deterministic restore-sync request id v1\0".as_bytes());
    bytes::push_all(&mut input, seed.as_bytes());
    assert(input@ =~= restore_sync_input(seed@));
    request_id_from_digest(&digest::digest(input.as_slice()))
}

// ---------------------------------------------------------------------------
// Laws of stamps and request ids
// ---------------------------------------------------------------------------

/// Each key whose values differ is named once, in the order of the keys, with both values;
/// no other is.
pub proof fn lemma_mismatches(
    snapshot: Map<Seq<char>, Seq<char>>,
    current: Map<Seq<char>, Seq<char>>,
    a: Seq<Seq<char>>,
    b: Seq<Seq<char>>,
    key: Seq<char>,
)
    ensures
        mismatches(snapshot, current, a + b) == mismatches(snapshot, current, a) + mismatches(
            snapshot,
            current,
            b,
        ),
        ({
            let was = if snapshot.dom().contains(key) {
                snapshot[key]
            } else {
                "<absent>"@
            };
            let is = if current.dom().contains(key) {
                current[key]
            } else {
                "<absent>"@
            };
            mismatches(snapshot, current, seq![key]) == (if was == is {
                Seq::<Seq<char>>::empty()
            } else {
                seq![key + ": snapshot="@ + was + " current="@ + is]
            })
        }),
        mismatches(snapshot, current, Seq::empty()) == Seq::<Seq<char>>::empty(),
    decreases b.len(),
{
    reveal_with_fuel(mismatches, 2);
    assert(seq![key].drop_last() =~= Seq::<Seq<char>>::empty());
    let was = value_or_absent(snapshot, key);
    let is = value_or_absent(current, key);
    if was != is {
        assert(mismatches(snapshot, current, seq![key]) =~= seq![
            key + ": snapshot="@ + was + " current="@ + is,
        ]);
    }
    if b.len() == 0 {
        assert(a + b =~= a);
        assert(mismatches(snapshot, current, a) + mismatches(snapshot, current, b) =~= mismatches(
            snapshot,
            current,
            a,
        ));
    } else {
        lemma_mismatches(snapshot, current, a, b.drop_last(), key);
        assert((a + b).drop_last() =~= a + b.drop_last());
        assert(mismatches(snapshot, current, a + b) =~= mismatches(snapshot, current, a)
            + mismatches(snapshot, current, b));
    }
}

/// A snapshot fits the current mode where its stamp is the current one, and one without a
/// stamp where nothing deterministic is asked for; any other is refused.
pub proof fn lemma_when_a_stamp_fits(stamp: String, error: String, seed: Option<Seq<char>>)
    ensures
        snapshot_stamp_problem(FileText::Found(stamp), stamp_of(seed)) is None <==> stamp@
            == stamp_of(seed),
        snapshot_stamp_problem(FileText::Missing, stamp_of(seed)) is None <==> seed is None,
        snapshot_stamp_problem(FileText::Failed(error), stamp_of(seed)) is Some,
{
    lemma_stamp_identifies_the_seed(seed, None);
}

/// What is read of a log begins where the cursor says, as far as the log goes, and at its
/// start where there is no cursor or none that can be read.
pub proof fn lemma_where_an_import_begins(at: u64, raw: Seq<char>, size: nat)
    ensures
        import_start(Some(text::dec(at as nat)), size) == (if at < size {
            at as nat
        } else {
            size
        }),
        import_start(None, size) == 0,
        text::parsed(text::trimmed(raw), u64::MAX as nat) is None ==> import_start(Some(raw), size)
            == 0,
        import_start(Some(raw), size) <= size,
{
    let d = text::dec(at as nat);
    text::lemma_dec_round_trip(at as nat);
    text::lemma_parse_decimal(at as nat, u64::MAX as nat);
    assert(text::is_digit(d[0]));
    assert(text::is_digit(d[d.len() - 1]));
    assert(text::trimmed(d) == d);
}

/// A request id is the number in the first eight bytes of a digest, with the lowest byte
/// first, and is one where that is zero: never zero.
pub proof fn lemma_id_of_digest(id: u64, rest: Seq<u8>)
    ensures
        id_of_digest(bytes::le_bytes(id as nat, 8) + rest) == (if id == 0 {
            1
        } else {
            id as nat
        }),
        forall|d: Seq<u8>| #[trigger] id_of_digest(d) != 0,
{
    bytes::lemma_byte_ranges();
    bytes::lemma_le_round_trip(id as nat, 8);
    let d = bytes::le_bytes(id as nat, 8) + rest;
    assert(d.take(8) =~= bytes::le_bytes(id as nat, 8));
}

/// Every argument of a command goes into its request id, in its order, behind a mark.
pub proof fn lemma_args_input(a: Seq<Seq<char>>, b: Seq<Seq<char>>, arg: Seq<char>)
    ensures
        args_input(a + b) == args_input(a) + args_input(b),
        args_input(seq![arg]) == utf8("\0arg\0"@) + utf8(arg),
        args_input(Seq::empty()) == Seq::<u8>::empty(),
    decreases b.len(),
{
    reveal_with_fuel(args_input, 2);
    assert(seq![arg].drop_last() =~= Seq::<Seq<char>>::empty());
    assert(args_input(seq![arg]) =~= utf8("\0arg\0"@) + utf8(arg));
    if b.len() == 0 {
        assert(a + b =~= a);
        assert(args_input(a) + args_input(b) =~= args_input(a));
    } else {
        lemma_args_input(a, b.drop_last(), arg);
        assert((a + b).drop_last() =~= a + b.drop_last());
        assert(args_input(a + b) =~= args_input(a) + args_input(b));
    }
}

proof fn lemma_cancel(p: Seq<u8>, x: Seq<u8>, y: Seq<u8>, s: Seq<u8>)
    requires
        p + x + s == p + y + s,
    ensures
        x == y,
{
    let n = p.len() as int;
    let (a, b) = (p + x + s, p + y + s);
    assert(a.len() == b.len());
    assert(x.len() == y.len());
    assert forall|i: int| 0 <= i < x.len() implies x[i] == y[i] by {
        assert(a[n + i] == x[i]);
        assert(b[n + i] == y[i]);
    }
    assert(x =~= y);
}

proof fn lemma_utf8_tells_apart(a: Seq<char>, b: Seq<char>)
    requires
        utf8(a) == utf8(b),
    ensures
        a == b,
{
    vstd::utf8::encode_utf8_decode_utf8(a);
    vstd::utf8::encode_utf8_decode_utf8(b);
}

/// What goes into a request id from the size of the terminal on.
spec fn size_input(rows: u16, cols: u16, command: Seq<Seq<char>>) -> Seq<u8> {
    bytes::le_bytes(rows as nat, 2) + utf8("\0cols\0"@) + (bytes::le_bytes(cols as nat, 2)
        + args_input(command))
}

/// What goes into a request id from the terminal on.
spec fn terminal_input(pty: bool, rows: u16, cols: u16, command: Seq<Seq<char>>) -> Seq<u8> {
    flag(pty) + utf8("\0rows\0"@) + size_input(rows, cols, command)
}

/// What goes into a request id from the user on.
spec fn user_input(
    root: bool,
    pty: bool,
    rows: u16,
    cols: u16,
    command: Seq<Seq<char>>,
) -> Seq<u8> {
    flag(root) + utf8("\0pty\0"@) + terminal_input(pty, rows, cols, command)
}

#[verifier::spinoff_prover]
#[verifier::rlimit(40)]
proof fn lemma_exec_input_in_parts(
    seed: Seq<char>,
    command: Seq<Seq<char>>,
    cwd: Seq<char>,
    root: bool,
    pty: bool,
    rows: u16,
    cols: u16,
)
    ensures
        exec_input(seed, command, cwd, root, pty, rows, cols) == utf8(
            "lnx deterministic exec request id v1\0"@,
        ) + utf8(seed) + (utf8("\0cwd\0"@) + (utf8(cwd) + (utf8("\0root\0"@) + user_input(
            root,
            pty,
            rows,
            cols,
            command,
        )))),
{
    let a = utf8("lnx deterministic exec request id v1\0"@) + utf8(seed);
    let b = utf8("\0cwd\0"@);
    let c = utf8(cwd);
    let d = utf8("\0root\0"@);
    let e = flag(root);
    let f = utf8("\0pty\0"@);
    let g = flag(pty);
    let h = utf8("\0rows\0"@);
    let i = bytes::le_bytes(rows as nat, 2);
    let j = utf8("\0cols\0"@);
    let k = bytes::le_bytes(cols as nat, 2);
    let l = args_input(command);
    let h2 = a + b + c;
    let h3 = h2 + d;
    let h5 = h3 + e + f;
    let h7 = h5 + g + h;
    lemma_regrouped(h7 + i + j, k, l);
    lemma_regrouped(h7 + i, j, k + l);
    lemma_regrouped(h7, i, j + (k + l));
    lemma_regrouped(i, j, k + l);
    let t = i + j + (k + l);
    assert(h7 + t == h7 + i + j + k + l);
    lemma_regrouped(h5 + g, h, t);
    lemma_regrouped(h5, g, h + t);
    lemma_regrouped(g, h, t);
    let u = g + h + t;
    assert(h5 + u == h7 + t);
    lemma_regrouped(h3 + e, f, u);
    lemma_regrouped(h3, e, f + u);
    lemma_regrouped(e, f, u);
    let v = e + f + u;
    assert(h3 + v == h5 + u);
    lemma_regrouped(h2, d, v);
    lemma_regrouped(a + b, c, d + v);
    lemma_regrouped(a, b, c + (d + v));
}

proof fn lemma_regrouped(x: Seq<u8>, y: Seq<u8>, z: Seq<u8>)
    ensures
        x + y + z == x + (y + z),
{
    assert(x + y + z =~= x + (y + z));
}

proof fn lemma_same_behind(x: Seq<u8>, s: Seq<u8>, t: Seq<u8>)
    requires
        x + s == x + t,
    ensures
        s == t,
{
    let n = x.len() as int;
    let (a, b) = (x + s, x + t);
    assert(a.len() == x.len() + s.len());
    assert(b.len() == x.len() + t.len());
    assert forall|i: int| 0 <= i < s.len() implies s[i] == t[i] by {
        assert(a[n + i] == s[i]);
        assert(b[n + i] == t[i]);
    }
    assert(s =~= t);
}

proof fn lemma_same_before(x: Seq<u8>, y: Seq<u8>, s: Seq<u8>)
    requires
        x + s == y + s,
    ensures
        x == y,
{
    let none = Seq::<u8>::empty();
    assert(none + x + s =~= x + s);
    assert(none + y + s =~= y + s);
    lemma_cancel(none, x, y, s);
}

/// The parts of a request that go into its id: two requests that differ in just one of
/// them are hashed as different bytes.
pub proof fn lemma_every_part_of_a_request_counts(
    seed: Seq<char>,
    command: Seq<Seq<char>>,
    cwd: Seq<char>,
    root: bool,
    pty: bool,
    rows: u16,
    cols: u16,
    other_seed: Seq<char>,
    other_cwd: Seq<char>,
    other_root: bool,
    other_pty: bool,
    other_rows: u16,
    other_cols: u16,
)
    ensures
        exec_input(seed, command, cwd, root, pty, rows, cols) == exec_input(
            other_seed,
            command,
            cwd,
            root,
            pty,
            rows,
            cols,
        ) ==> seed == other_seed,
        exec_input(seed, command, cwd, root, pty, rows, cols) == exec_input(
            seed,
            command,
            other_cwd,
            root,
            pty,
            rows,
            cols,
        ) ==> cwd == other_cwd,
        exec_input(seed, command, cwd, root, pty, rows, cols) == exec_input(
            seed,
            command,
            cwd,
            other_root,
            other_pty,
            other_rows,
            other_cols,
        ) ==> root == other_root && pty == other_pty && rows == other_rows && cols == other_cols,
{
    let p0 = utf8("lnx deterministic exec request id v1\0"@);
    let m1 = utf8("\0cwd\0"@);
    let m2 = utf8("\0root\0"@);
    let u = user_input(root, pty, rows, cols, command);
    lemma_exec_input_in_parts(seed, command, cwd, root, pty, rows, cols);
    let whole = exec_input(seed, command, cwd, root, pty, rows, cols);
    if whole == exec_input(other_seed, command, cwd, root, pty, rows, cols) {
        lemma_exec_input_in_parts(other_seed, command, cwd, root, pty, rows, cols);
        lemma_cancel(p0, utf8(seed), utf8(other_seed), m1 + (utf8(cwd) + (m2 + u)));
        lemma_utf8_tells_apart(seed, other_seed);
    }
    if whole == exec_input(seed, command, other_cwd, root, pty, rows, cols) {
        lemma_exec_input_in_parts(seed, command, other_cwd, root, pty, rows, cols);
        lemma_same_behind(
            p0 + utf8(seed),
            m1 + (utf8(cwd) + (m2 + u)),
            m1 + (utf8(other_cwd) + (m2 + u)),
        );
        lemma_same_behind(m1, utf8(cwd) + (m2 + u), utf8(other_cwd) + (m2 + u));
        lemma_same_before(utf8(cwd), utf8(other_cwd), m2 + u);
        lemma_utf8_tells_apart(cwd, other_cwd);
    }
    if whole == exec_input(seed, command, cwd, other_root, other_pty, other_rows, other_cols) {
        let w = user_input(other_root, other_pty, other_rows, other_cols, command);
        lemma_exec_input_in_parts(
            seed,
            command,
            cwd,
            other_root,
            other_pty,
            other_rows,
            other_cols,
        );
        lemma_same_behind(
            p0 + utf8(seed),
            m1 + (utf8(cwd) + (m2 + u)),
            m1 + (utf8(cwd) + (m2 + w)),
        );
        lemma_same_behind(m1, utf8(cwd) + (m2 + u), utf8(cwd) + (m2 + w));
        lemma_same_behind(utf8(cwd), m2 + u, m2 + w);
        lemma_same_behind(m2, u, w);
        lemma_user_input(root, pty, rows, cols, other_root, other_pty, other_rows, other_cols, command);
    }
}

proof fn lemma_user_input(
    root: bool,
    pty: bool,
    rows: u16,
    cols: u16,
    other_root: bool,
    other_pty: bool,
    other_rows: u16,
    other_cols: u16,
    command: Seq<Seq<char>>,
)
    requires
        user_input(root, pty, rows, cols, command) == user_input(
            other_root,
            other_pty,
            other_rows,
            other_cols,
            command,
        ),
    ensures
        root == other_root && pty == other_pty && rows == other_rows && cols == other_cols,
{
    let f = utf8("\0pty\0"@);
    let h = utf8("\0rows\0"@);
    let j = utf8("\0cols\0"@);
    let (u, w) = (
        user_input(root, pty, rows, cols, command),
        user_input(other_root, other_pty, other_rows, other_cols, command),
    );
    assert(u[0] == flag(root)[0] && w[0] == flag(other_root)[0]);
    assert(root == other_root);
    let (s, t) = (
        terminal_input(pty, rows, cols, command),
        terminal_input(other_pty, other_rows, other_cols, command),
    );
    lemma_same_behind(flag(root) + f, s, t);
    assert(s[0] == flag(pty)[0] && t[0] == flag(other_pty)[0]);
    assert(pty == other_pty);
    let (x, y) = (size_input(rows, cols, command), size_input(other_rows, other_cols, command));
    lemma_same_behind(flag(pty) + h, x, y);
    let (r, q) = (bytes::le_bytes(rows as nat, 2), bytes::le_bytes(other_rows as nat, 2));
    let (c, d) = (bytes::le_bytes(cols as nat, 2), bytes::le_bytes(other_cols as nat, 2));
    lemma_two_bytes(rows);
    lemma_two_bytes(cols);
    lemma_two_bytes(other_rows);
    lemma_two_bytes(other_cols);
    assert(r =~= q) by {
        assert(x[0] == r[0] && x[1] == r[1] && y[0] == q[0] && y[1] == q[1]);
    }
    lemma_same_behind(r + j, c + args_input(command), d + args_input(command));
    lemma_same_before(c, d, args_input(command));
}

proof fn lemma_two_bytes(n: u16)
    ensures
        bytes::le_value(bytes::le_bytes(n as nat, 2)) == n,
        bytes::le_bytes(n as nat, 2).len() == 2,
{
    reveal_with_fuel(bytes::byte_range, 3);
    bytes::lemma_le_round_trip(n as nat, 2);
}

/// Every field of a stamp is among those that are compared, in their order, and the seed
/// is one of them.
#[verifier::spinoff_prover]
#[verifier::rlimit(40)]
pub proof fn lemma_every_stamp_field_is_compared(seed: Seq<char>)
    ensures
        stamp_fields(Some(seed)).len() == stamp_keys().len(),
        forall|i: int|
            0 <= i < stamp_keys().len() ==> (#[trigger] stamp_fields(Some(seed))[i]).0
                == stamp_keys()[i],
        stamp_fields(Some(seed)).contains(("seed"@, seed)),
        stamp_fields(None) == seq![("deterministic"@, "disabled-v1"@)],
{
    assert(stamp_fields(Some(seed))[1] == ("seed"@, seed));
    let fields = stamp_fields(Some(seed));
    let keys = stamp_keys();
    assert forall|i: int| 0 <= i < keys.len() implies (#[trigger] fields[i]).0 == keys[i] by {
        assert(i == 0 || i == 1 || i == 2 || i == 3 || i == 4 || i == 5 || i == 6 || i == 7 || i
            == 8 || i == 9 || i == 10 || i == 11 || i == 12 || i == 13 || i == 14 || i == 15 || i
            == 16 || i == 17);
    }
}

/// Two seeds give two restores that are told apart by what is hashed for their ids.
pub proof fn lemma_restore_sync_input(a: Seq<char>, b: Seq<char>)
    ensures
        restore_sync_input(a) == restore_sync_input(b) <==> a == b,
{
    if restore_sync_input(a) == restore_sync_input(b) {
        lemma_same_behind(
            utf8("lnx deterministic restore-sync request id v1\0"@),
            utf8(a),
            utf8(b),
        );
        lemma_utf8_tells_apart(a, b);
    }
}

/// Two stamps are told apart by the fields that differ, one after the other, and where
/// none of the known ones does the difference is said to lie elsewhere.
pub proof fn lemma_mismatch_text(snapshot: Seq<char>, current: Seq<char>)
    ensures
        ({
            let lines = mismatches(
                stamps::fields_of(snapshot),
                stamps::fields_of(current),
                stamp_keys(),
            );
            &&& lines.len() > 0 ==> mismatch_text(snapshot, current) == text::joined(lines, "; "@)
            &&& lines.len() == 0 ==> mismatch_text(snapshot, current)
                == "snapshot and current deterministic stamps differ only in unrecognized fields"@
        }),
{
}

} // verus!
