//! The deterministic trace: numbered events with named fields.
use vstd::prelude::*;

use crate::deterministic::{DeterministicClockState, TimerJump};
use crate::protocol::Message;
use crate::text;

verus! {

/// The value of a field of a trace event.
#[derive(Debug, PartialEq, Eq)]
pub enum TraceValue {
    Text(String),
    Integer(i64),
    Blob(Vec<u8>),
}

/// A field of a trace event. Fields that make up a list share a key and are numbered.
#[derive(Debug, PartialEq, Eq)]
pub struct TraceField {
    pub key: &'static str,
    pub ordinal: Option<i64>,
    pub value: TraceValue,
}

/// A trace event.
#[derive(Debug, PartialEq, Eq)]
pub struct TraceEvent {
    pub name: &'static str,
    pub fields: Vec<TraceField>,
}

/// What a field's value says.
pub enum ValueView {
    Text(Seq<char>),
    Integer(int),
    Blob(Seq<u8>),
}

/// What a field says.
pub struct FieldView {
    pub key: Seq<char>,
    pub ordinal: Option<int>,
    pub value: ValueView,
}

/// What an event says.
pub struct EventView {
    pub name: Seq<char>,
    pub fields: Seq<FieldView>,
}

impl TraceField {
    pub open spec fn view(self) -> FieldView {
        FieldView {
            key: self.key@,
            ordinal: match self.ordinal {
                Some(n) => Some(n as int),
                None => None,
            },
            value: match self.value {
                TraceValue::Text(s) => ValueView::Text(s@),
                TraceValue::Integer(n) => ValueView::Integer(n as int),
                TraceValue::Blob(b) => ValueView::Blob(b@),
            },
        }
    }
}

/// What fields say.
pub open spec fn fields_view(fields: Seq<TraceField>) -> Seq<FieldView> {
    Seq::new(fields.len(), |i: int| fields[i].view())
}

impl TraceEvent {
    pub open spec fn view(self) -> EventView {
        EventView { name: self.name@, fields: fields_view(self.fields@) }
    }
}

/// A text field.
pub open spec fn text_field(key: Seq<char>, value: Seq<char>) -> FieldView {
    FieldView { key, ordinal: None, value: ValueView::Text(value) }
}

/// A numbered text field.
pub open spec fn ordinal_field(key: Seq<char>, ordinal: int, value: Seq<char>) -> FieldView {
    FieldView { key, ordinal: Some(ordinal), value: ValueView::Text(value) }
}

/// A number field.
pub open spec fn integer_field(key: Seq<char>, value: int) -> FieldView {
    FieldView { key, ordinal: None, value: ValueView::Integer(value) }
}

/// A flag, as a number.
pub open spec fn bool_field(key: Seq<char>, value: bool) -> FieldView {
    integer_field(
        key,
        if value {
            1
        } else {
            0
        },
    )
}

/// A field of raw bytes.
pub open spec fn blob_field(key: Seq<char>, value: Seq<u8>) -> FieldView {
    FieldView { key, ordinal: None, value: ValueView::Blob(value) }
}

/// The channel id as events write it.
pub open spec fn channel_field(channel_id: u64) -> FieldView {
    text_field("channel_id"@, text::hex(channel_id as nat, 16))
}

/// Makes a text field.
pub fn trace_text(key: &'static str, value: String) -> (f: TraceField)
    ensures
        f.view() == text_field(key@, value@),
{
    TraceField { key, ordinal: None, value: TraceValue::Text(value) }
}

/// Makes a numbered text field.
pub fn trace_text_ordinal(key: &'static str, ordinal: usize, value: String) -> (f: TraceField)
    requires
        ordinal <= i64::MAX,
    ensures
        f.view() == ordinal_field(key@, ordinal as int, value@),
{
    TraceField { key, ordinal: Some(ordinal as i64), value: TraceValue::Text(value) }
}

/// Makes a number field.
pub fn trace_integer(key: &'static str, value: i64) -> (f: TraceField)
    ensures
        f.view() == integer_field(key@, value as int),
{
    TraceField { key, ordinal: None, value: TraceValue::Integer(value) }
}

/// Makes a number field of a flag.
pub fn trace_bool(key: &'static str, value: bool) -> (f: TraceField)
    ensures
        f.view() == bool_field(key@, value),
{
    trace_integer(
        key,
        if value {
            1
        } else {
            0
        },
    )
}

/// Makes a field of raw bytes.
pub fn trace_blob(key: &'static str, value: Vec<u8>) -> (f: TraceField)
    ensures
        f.view() == blob_field(key@, value@),
{
    TraceField { key, ordinal: None, value: TraceValue::Blob(value) }
}

fn trace_channel(channel_id: u64) -> (f: TraceField)
    ensures
        f.view() == channel_field(channel_id),
{
    trace_text("channel_id", text::hexadecimal(channel_id, 16))
}

fn copy_bytes(b: &Vec<u8>) -> (r: Vec<u8>)
    ensures
        r@ == b@,
{
    let mut r: Vec<u8> = Vec::new();
    crate::bytes::push_all(&mut r, b.as_slice());
    assert(r@ =~= b@);
    r
}

/// The number of bytes in a message as a field.
fn length_of(b: &Vec<u8>) -> (n: i64)
    requires
        b@.len() <= i64::MAX,
    ensures
        n == b@.len(),
{
    b.len() as i64
}

// ---------------------------------------------------------------------------
// Events of clients
// ---------------------------------------------------------------------------

/// The fields of the arguments of a command, from `from` on.
pub open spec fn argv_fields(argv: Seq<Seq<char>>) -> Seq<FieldView> {
    Seq::new(argv.len(), |i: int| ordinal_field("argv"@, i, argv[i]))
}

/// The fields of an environment: for each variable its key, then its value.
pub open spec fn env_fields(env: Seq<(Seq<char>, Seq<char>)>) -> Seq<FieldView>
    decreases env.len(),
{
    if env.len() == 0 {
        Seq::empty()
    } else {
        let i = env.len() - 1;
        env_fields(env.drop_last()) + seq![
            ordinal_field("env_key"@, i, env.last().0),
            ordinal_field("env_value"@, i, env.last().1),
        ]
    }
}

/// The fields of the event for a command that a client opened.
pub open spec fn open_exec_fields(message: Message) -> Seq<FieldView> {
    match message {
        Message::OpenExec {
            channel_id,
            argv,
            cwd,
            pty,
            term,
            colorterm,
            rows,
            cols,
            uid,
            gid,
            group,
            env,
        } => seq![
            channel_field(channel_id),
            text_field("cwd"@, cwd@),
            bool_field("pty"@, pty),
            text_field("term"@, term@),
            text_field("colorterm"@, colorterm@),
            integer_field("rows"@, rows as int),
            integer_field("cols"@, cols as int),
            integer_field("uid"@, uid as int),
            integer_field("gid"@, gid as int),
            text_field("group"@, group@),
        ] + argv_fields(text::views(argv@)) + env_fields(crate::stamps::pair_views(env@)),
        _ => Seq::empty(),
    }
}

/// The event for the message with which a client opens a channel.
pub open spec fn client_open_event(message: Message) -> Option<EventView> {
    match message {
        Message::OpenExec { .. } => Some(
            EventView { name: "client_open_exec"@, fields: open_exec_fields(message) },
        ),
        Message::OpenTcp { channel_id, host, port } => Some(
            EventView {
                name: "client_open_tcp"@,
                fields: seq![
                    channel_field(channel_id),
                    text_field("host"@, host@),
                    integer_field("port"@, port as int),
                ],
            },
        ),
        _ => None,
    }
}

/// The views agree: no event where there is none, and the same event where there is one.
pub open spec fn is_event(r: Option<TraceEvent>, expected: Option<EventView>) -> bool {
    match r {
        Some(e) => expected == Some(e.view()),
        None => expected is None,
    }
}

/// Records how a client opened a channel.
pub fn trace_client_open(message: &Message) -> (r: Option<TraceEvent>)
    requires
        message matches Message::OpenExec { argv, env, .. } ==> argv@.len() <= i64::MAX
            && env@.len() <= i64::MAX,
    ensures
        is_event(r, client_open_event(*message)),
{
    match message {
        Message::OpenExec {
            channel_id,
            argv,
            cwd,
            pty,
            term,
            colorterm,
            rows,
            cols,
            uid,
            gid,
            group,
            env,
        } => {
            let mut fields: Vec<TraceField> = Vec::new();
            fields.push(trace_channel(*channel_id));
            fields.push(trace_text("cwd", cwd.clone()));
            fields.push(trace_bool("pty", *pty));
            fields.push(trace_text("term", term.clone()));
            fields.push(trace_text("colorterm", colorterm.clone()));
            fields.push(trace_integer("rows", *rows as i64));
            fields.push(trace_integer("cols", *cols as i64));
            fields.push(trace_integer("uid", *uid as i64));
            fields.push(trace_integer("gid", *gid as i64));
            fields.push(trace_text("group", group.clone()));
            let ghost head = fields_view(fields@);
            assert(head =~= seq![
                channel_field(*channel_id),
                text_field("cwd"@, cwd@),
                bool_field("pty"@, *pty),
                text_field("term"@, term@),
                text_field("colorterm"@, colorterm@),
                integer_field("rows"@, *rows as int),
                integer_field("cols"@, *cols as int),
                integer_field("uid"@, *uid as int),
                integer_field("gid"@, *gid as int),
                text_field("group"@, group@),
            ]);
            let ghost args = argv_fields(text::views(argv@));
            let mut i: usize = 0;
            assert(head + args.take(0) =~= head);
            while i < argv.len()
                invariant
                    i <= argv@.len() <= i64::MAX,
                    args == argv_fields(text::views(argv@)),
                    fields_view(fields@) == head + args.take(i as int),
                decreases argv@.len() - i,
            {
                let ghost before = fields@;
                fields.push(trace_text_ordinal("argv", i, argv[i].clone()));
                i = i + 1;
                proof {
                    assert(fields_view(fields@) =~= fields_view(before).push(args[i - 1]));
                    assert(head + args.take(i as int) =~= (head + args.take(i - 1)).push(
                        args[i - 1],
                    ));
                }
            }
            assert(args.take(i as int) =~= args);
            let ghost middle = fields_view(fields@);
            let ghost vars = crate::stamps::pair_views(env@);
            let mut j: usize = 0;
            assert(middle + env_fields(vars.take(0)) =~= middle);
            while j < env.len()
                invariant
                    j <= env@.len() <= i64::MAX,
                    vars == crate::stamps::pair_views(env@),
                    fields_view(fields@) == middle + env_fields(vars.take(j as int)),
                decreases env@.len() - j,
            {
                let ghost before = fields@;
                fields.push(trace_text_ordinal("env_key", j, env[j].0.clone()));
                fields.push(trace_text_ordinal("env_value", j, env[j].1.clone()));
                proof {
                    let next = vars.take(j + 1);
                    assert(next.drop_last() =~= vars.take(j as int));
                    assert(next.last() == (env@[j as int].0@, env@[j as int].1@));
                    let pair = seq![
                        ordinal_field("env_key"@, j as int, env@[j as int].0@),
                        ordinal_field("env_value"@, j as int, env@[j as int].1@),
                    ];
                    assert(fields_view(fields@) =~= fields_view(before) + pair);
                    assert(middle + env_fields(next) =~= middle + env_fields(vars.take(j as int))
                        + pair);
                }
                j = j + 1;
            }
            assert(vars.take(j as int) =~= vars);
            Some(TraceEvent { name: "client_open_exec", fields })
        },
        Message::OpenTcp { channel_id, host, port } => {
            let mut fields: Vec<TraceField> = Vec::new();
            fields.push(trace_channel(*channel_id));
            fields.push(trace_text("host", host.clone()));
            fields.push(trace_integer("port", *port as i64));
            assert(fields_view(fields@) =~= seq![
                channel_field(*channel_id),
                text_field("host"@, host@),
                integer_field("port"@, *port as int),
            ]);
            Some(TraceEvent { name: "client_open_tcp", fields })
        },
        _ => None,
    }
}

/// An event that names a channel and nothing else.
pub open spec fn channel_event(name: Seq<char>, channel_id: u64) -> EventView {
    EventView { name, fields: seq![channel_field(channel_id)] }
}

/// An event for bytes on a channel.
pub open spec fn bytes_event(name: Seq<char>, channel_id: u64, bytes: Seq<u8>) -> EventView {
    EventView {
        name,
        fields: seq![
            channel_field(channel_id),
            integer_field("len"@, bytes.len() as int),
            blob_field("bytes"@, bytes),
        ],
    }
}

fn make_channel_event(name: &'static str, channel_id: u64) -> (e: TraceEvent)
    ensures
        e.view() == channel_event(name@, channel_id),
{
    let mut fields: Vec<TraceField> = Vec::new();
    fields.push(trace_channel(channel_id));
    assert(fields_view(fields@) =~= seq![channel_field(channel_id)]);
    TraceEvent { name, fields }
}

fn make_bytes_event(name: &'static str, channel_id: u64, bytes: &Vec<u8>) -> (e: TraceEvent)
    requires
        bytes@.len() <= i64::MAX,
    ensures
        e.view() == bytes_event(name@, channel_id, bytes@),
{
    let mut fields: Vec<TraceField> = Vec::new();
    fields.push(trace_channel(channel_id));
    fields.push(trace_integer("len", length_of(bytes)));
    fields.push(trace_blob("bytes", copy_bytes(bytes)));
    assert(fields_view(fields@) =~= bytes_event(name@, channel_id, bytes@).fields);
    TraceEvent { name, fields }
}

/// How many bytes a message carries.
pub open spec fn payload(message: Message) -> nat {
    match message {
        Message::Data { bytes, .. } => bytes@.len(),
        Message::Stderr { bytes, .. } => bytes@.len(),
        _ => 0,
    }
}

/// The event for a message from a client.
pub open spec fn client_event(message: Message) -> Option<EventView> {
    match message {
        Message::Data { channel_id, bytes } => Some(
            bytes_event("client_stdin"@, channel_id, bytes@),
        ),
        Message::Eof { channel_id } => Some(channel_event("client_eof"@, channel_id)),
        Message::Close { channel_id } => Some(channel_event("client_close"@, channel_id)),
        Message::WindowResize { channel_id, rows, cols } => Some(
            EventView {
                name: "client_window_resize"@,
                fields: seq![
                    channel_field(channel_id),
                    integer_field("rows"@, rows as int),
                    integer_field("cols"@, cols as int),
                ],
            },
        ),
        _ => None,
    }
}

/// Records a message from a client.
pub fn trace_client_message(message: &Message) -> (r: Option<TraceEvent>)
    requires
        payload(*message) <= i64::MAX,
    ensures
        is_event(r, client_event(*message)),
{
    match message {
        Message::Data { channel_id, bytes } => Some(
            make_bytes_event("client_stdin", *channel_id, bytes),
        ),
        Message::Eof { channel_id } => Some(make_channel_event("client_eof", *channel_id)),
        Message::Close { channel_id } => Some(make_channel_event("client_close", *channel_id)),
        Message::WindowResize { channel_id, rows, cols } => {
            let mut fields: Vec<TraceField> = Vec::new();
            fields.push(trace_channel(*channel_id));
            fields.push(trace_integer("rows", *rows as i64));
            fields.push(trace_integer("cols", *cols as i64));
            assert(fields_view(fields@) =~= seq![
                channel_field(*channel_id),
                integer_field("rows"@, *rows as int),
                integer_field("cols"@, *cols as int),
            ]);
            Some(TraceEvent { name: "client_window_resize", fields })
        },
        _ => None,
    }
}

// ---------------------------------------------------------------------------
// Events of the guest
// ---------------------------------------------------------------------------

/// The event for a message from the guest agent.
pub open spec fn agent_event(message: Message) -> Option<EventView> {
    match message {
        Message::Data { channel_id, bytes } => Some(
            bytes_event("guest_stdout"@, channel_id, bytes@),
        ),
        Message::Stderr { channel_id, bytes } => Some(
            bytes_event("guest_stderr"@, channel_id, bytes@),
        ),
        Message::ExecStarted { channel_id } => Some(
            channel_event("guest_exec_started"@, channel_id),
        ),
        Message::ExitStatus { channel_id, status } => Some(
            EventView {
                name: "guest_exit_status"@,
                fields: seq![
                    channel_field(channel_id),
                    integer_field("status"@, status as int),
                ],
            },
        ),
        Message::Eof { channel_id } => Some(channel_event("guest_eof"@, channel_id)),
        Message::Close { channel_id } => Some(channel_event("guest_close"@, channel_id)),
        Message::Error { channel_id, message } => Some(
            EventView {
                name: "guest_error"@,
                fields: seq![channel_field(channel_id), text_field("message"@, message@)],
            },
        ),
        Message::CheckpointCreated { channel_id } => Some(
            channel_event("guest_checkpoint_created"@, channel_id),
        ),
        _ => None,
    }
}

/// Records a message from the guest agent.
pub fn trace_agent_message(message: &Message) -> (r: Option<TraceEvent>)
    requires
        payload(*message) <= i64::MAX,
    ensures
        is_event(r, agent_event(*message)),
{
    match message {
        Message::Data { channel_id, bytes } => Some(
            make_bytes_event("guest_stdout", *channel_id, bytes),
        ),
        Message::Stderr { channel_id, bytes } => Some(
            make_bytes_event("guest_stderr", *channel_id, bytes),
        ),
        Message::ExecStarted { channel_id } => Some(
            make_channel_event("guest_exec_started", *channel_id),
        ),
        Message::ExitStatus { channel_id, status } => {
            let mut fields: Vec<TraceField> = Vec::new();
            fields.push(trace_channel(*channel_id));
            fields.push(trace_integer("status", *status as i64));
            assert(fields_view(fields@) =~= seq![
                channel_field(*channel_id),
                integer_field("status"@, *status as int),
            ]);
            Some(TraceEvent { name: "guest_exit_status", fields })
        },
        Message::Eof { channel_id } => Some(make_channel_event("guest_eof", *channel_id)),
        Message::Close { channel_id } => Some(make_channel_event("guest_close", *channel_id)),
        Message::Error { channel_id, message } => {
            let mut fields: Vec<TraceField> = Vec::new();
            fields.push(trace_channel(*channel_id));
            fields.push(trace_text("message", message.clone()));
            assert(fields_view(fields@) =~= seq![
                channel_field(*channel_id),
                text_field("message"@, message@),
            ]);
            Some(TraceEvent { name: "guest_error", fields })
        },
        Message::CheckpointCreated { channel_id } => Some(
            make_channel_event("guest_checkpoint_created", *channel_id),
        ),
        _ => None,
    }
}

/// The event for a web address that the guest asked to open.
pub fn trace_open_url(channel_id: u64, url: String, ok: bool) -> (e: TraceEvent)
    ensures
        e.view() == (EventView {
            name: "guest_open_url"@,
            fields: seq![
                channel_field(channel_id),
                text_field("url"@, url@),
                bool_field("ok"@, ok),
            ],
        }),
{
    let mut fields: Vec<TraceField> = Vec::new();
    fields.push(trace_channel(channel_id));
    let ghost address = url@;
    fields.push(trace_text("url", url));
    fields.push(trace_bool("ok", ok));
    assert(fields_view(fields@) =~= seq![
        channel_field(channel_id),
        text_field("url"@, address),
        bool_field("ok"@, ok),
    ]);
    TraceEvent { name: "guest_open_url", fields }
}

/// An event that names a path and nothing else.
pub fn trace_path_event(name: &'static str, path: String) -> (e: TraceEvent)
    ensures
        e.view() == (EventView { name: name@, fields: seq![text_field("path"@, path@)] }),
{
    let ghost at = path@;
    let mut fields: Vec<TraceField> = Vec::new();
    fields.push(trace_text("path", path));
    assert(fields_view(fields@) =~= seq![text_field("path"@, at)]);
    TraceEvent { name, fields }
}

fn make_channel_path_event(name: &'static str, channel_id: u64, path: String) -> (e: TraceEvent)
    ensures
        e.view() == (EventView {
            name: name@,
            fields: seq![channel_field(channel_id), text_field("path"@, path@)],
        }),
{
    let ghost at = path@;
    let mut fields: Vec<TraceField> = Vec::new();
    fields.push(trace_channel(channel_id));
    fields.push(trace_text("path", path));
    assert(fields_view(fields@) =~= seq![channel_field(channel_id), text_field("path"@, at)]);
    TraceEvent { name, fields }
}

/// The event for fresh randomness that is sent to a restored guest.
pub fn trace_restore_sync_begin(channel_id: u64, entropy: &Vec<u8>) -> (e: TraceEvent)
    ensures
        e.view() == (EventView {
            name: "restore_sync_begin"@,
            fields: seq![channel_field(channel_id), blob_field("entropy"@, entropy@)],
        }),
{
    let mut fields: Vec<TraceField> = Vec::new();
    fields.push(trace_channel(channel_id));
    fields.push(trace_blob("entropy", copy_bytes(entropy)));
    assert(fields_view(fields@) =~= seq![
        channel_field(channel_id),
        blob_field("entropy"@, entropy@),
    ]);
    TraceEvent { name: "restore_sync_begin", fields }
}

/// The event for a restored guest that has taken the fresh randomness.
pub fn trace_restore_sync_done(channel_id: u64) -> (e: TraceEvent)
    ensures
        e.view() == channel_event("restore_sync_done"@, channel_id),
{
    make_channel_event("restore_sync_done", channel_id)
}

/// The event for a guest that asks to end with a snapshot.
pub fn trace_guest_snapshot_exit(channel_id: u64) -> (e: TraceEvent)
    ensures
        e.view() == channel_event("guest_snapshot_exit"@, channel_id),
{
    make_channel_event("guest_snapshot_exit", channel_id)
}

/// The event for the final snapshot that the guest is asked to get ready for.
pub fn trace_snapshot_request_guest(path: String, full: bool) -> (e: TraceEvent)
    ensures
        e.view() == (EventView {
            name: "snapshot_request_guest"@,
            fields: seq![text_field("path"@, path@), bool_field("full"@, full)],
        }),
{
    let ghost at = path@;
    let mut fields: Vec<TraceField> = Vec::new();
    fields.push(trace_text("path", path));
    fields.push(trace_bool("full", full));
    assert(fields_view(fields@) =~= seq![text_field("path"@, at), bool_field("full"@, full)]);
    TraceEvent { name: "snapshot_request_guest", fields }
}

/// The event for a snapshot that was taken for a guest that ends with it.
pub fn trace_snapshot_exit_done(channel_id: u64, path: String) -> (e: TraceEvent)
    ensures
        e.view() == (EventView {
            name: "snapshot_exit_done"@,
            fields: seq![channel_field(channel_id), text_field("path"@, path@)],
        }),
{
    make_channel_path_event("snapshot_exit_done", channel_id, path)
}

/// The event for a client that asks for a checkpoint.
pub fn trace_client_checkpoint_request(channel_id: u64, path: String) -> (e: TraceEvent)
    ensures
        e.view() == (EventView {
            name: "client_checkpoint_request"@,
            fields: seq![channel_field(channel_id), text_field("path"@, path@)],
        }),
{
    make_channel_path_event("client_checkpoint_request", channel_id, path)
}

/// The event for a jump of the virtual clock. Numbers are recorded as signed ones of the
/// same width.
pub fn trace_timer_jump(jump: TimerJump) -> (e: TraceEvent)
    ensures
        e.view() == (EventView {
            name: "timer_jump"@,
            fields: seq![
                integer_field("deadline_ticks"@, jump.deadline_ticks as i64 as int),
                integer_field("counter_frequency_hz"@, jump.counter_frequency_hz as i64 as int),
                integer_field("deadline_nanos"@, jump.deadline_nanos as i64 as int),
            ],
        }),
{
    let mut fields: Vec<TraceField> = Vec::new();
    fields.push(trace_integer("deadline_ticks", jump.deadline_ticks as i64));
    fields.push(trace_integer("counter_frequency_hz", jump.counter_frequency_hz as i64));
    fields.push(trace_integer("deadline_nanos", jump.deadline_nanos as i64));
    assert(fields_view(fields@) =~= seq![
        integer_field("deadline_ticks"@, jump.deadline_ticks as i64 as int),
        integer_field("counter_frequency_hz"@, jump.counter_frequency_hz as i64 as int),
        integer_field("deadline_nanos"@, jump.deadline_nanos as i64 as int),
    ]);
    TraceEvent { name: "timer_jump", fields }
}

/// The event for the clock that a VM starts with.
pub fn trace_clock_state(s: &DeterministicClockState) -> (e: TraceEvent)
    ensures
        e.view() == (EventView {
            name: "deterministic_clock_state"@,
            fields: seq![
                integer_field("realtime_unix_nanos"@, s.realtime_unix_nanos as i64 as int),
                integer_field("monotonic_nanos"@, s.monotonic_nanos as i64 as int),
                integer_field("counter_frequency_hz"@, s.counter_frequency_hz as i64 as int),
                integer_field("event_sequence"@, s.event_sequence as i64 as int),
                integer_field("timer_jump_count"@, s.timer_jump_count as i64 as int),
                integer_field(
                    "last_timer_deadline_ticks"@,
                    s.last_timer_deadline_ticks as i64 as int,
                ),
            ],
        }),
{
    let mut fields: Vec<TraceField> = Vec::new();
    fields.push(trace_integer("realtime_unix_nanos", s.realtime_unix_nanos as i64));
    fields.push(trace_integer("monotonic_nanos", s.monotonic_nanos as i64));
    fields.push(trace_integer("counter_frequency_hz", s.counter_frequency_hz as i64));
    fields.push(trace_integer("event_sequence", s.event_sequence as i64));
    fields.push(trace_integer("timer_jump_count", s.timer_jump_count as i64));
    fields.push(trace_integer("last_timer_deadline_ticks", s.last_timer_deadline_ticks as i64));
    assert(fields_view(fields@) =~= seq![
        integer_field("realtime_unix_nanos"@, s.realtime_unix_nanos as i64 as int),
        integer_field("monotonic_nanos"@, s.monotonic_nanos as i64 as int),
        integer_field("counter_frequency_hz"@, s.counter_frequency_hz as i64 as int),
        integer_field("event_sequence"@, s.event_sequence as i64 as int),
        integer_field("timer_jump_count"@, s.timer_jump_count as i64 as int),
        integer_field("last_timer_deadline_ticks"@, s.last_timer_deadline_ticks as i64 as int),
    ]);
    TraceEvent { name: "deterministic_clock_state", fields }
}

// ---------------------------------------------------------------------------
// Numbers
// ---------------------------------------------------------------------------

/// The number of the next trace event. The trace counts up to the largest signed number
/// and stays there.
pub struct TraceSequence {
    next: i64,
}

impl TraceSequence {
    pub closed spec fn view(self) -> int {
        self.next as int
    }

    /// Numbers are not negative.
    pub closed spec fn wf(self) -> bool {
        self.next >= 0
    }

    /// A trace starts at zero.
    pub fn new() -> (r: Self)
        ensures
            r.wf(),
            r@ == 0,
    {
        TraceSequence { next: 0 }
    }

    /// Goes on at a number that a snapshot recorded.
    pub fn set_next_sequence(&mut self, sequence: u64)
        ensures
            final(self).wf(),
            final(self)@ == (if sequence <= i64::MAX {
                sequence as int
            } else {
                i64::MAX as int
            }),
    {
        if sequence <= i64::MAX as u64 {
            self.next = sequence as i64;
        } else {
            self.next = i64::MAX;
        }
    }

    /// The number of the next event.
    pub fn next_sequence(&self) -> (n: u64)
        requires
            self.wf(),
        ensures
            n == self@,
    {
        self.next as u64
    }

    /// Takes the number of an event. It counts only once the event is stored: an event
    /// that could not be stored leaves its number to the next one.
    pub fn record(&mut self, stored: bool) -> (number: i64)
        requires
            old(self).wf(),
        ensures
            final(self).wf(),
            number == old(self)@,
            final(self)@ == (if stored && old(self)@ < i64::MAX {
                old(self)@ + 1
            } else {
                old(self)@
            }),
    {
        let number: i64 = self.next;
        if stored && self.next < i64::MAX {
            self.next = self.next + 1;
        }
        number
    }
}

// ---------------------------------------------------------------------------
// Laws of a trace
// ---------------------------------------------------------------------------

/// A channel is traced as sixteen hexadecimal digits that give its number back, so two
/// channels are never traced alike.
pub proof fn lemma_traced_channels(a: u64, b: u64)
    ensures
        channel_field(a).key == "channel_id"@,
        channel_field(a).value matches ValueView::Text(t) && t.len() == 16 && text::hex_number(t)
            == a,
        channel_field(a) == channel_field(b) ==> a == b,
{
    text::lemma_hex(a as nat, 16);
    text::lemma_hex(b as nat, 16);
    lemma_sixteen_digits();
}

proof fn lemma_sixteen_digits()
    ensures
        vstd::arithmetic::power::pow(16, 16) == 0x1_0000_0000_0000_0000,
{
    reveal(vstd::arithmetic::power::pow);
    assert(vstd::arithmetic::power::pow(16, 16) == 0x1_0000_0000_0000_0000) by {
        reveal_with_fuel(vstd::arithmetic::power::pow, 17);
    }
}

/// Every argument of a command is traced, under its place.
pub proof fn lemma_traced_arguments(argv: Seq<Seq<char>>)
    ensures
        argv_fields(argv).len() == argv.len(),
        forall|i: int|
            0 <= i < argv.len() ==> #[trigger] argv_fields(argv)[i] == (FieldView {
                key: "argv"@,
                ordinal: Some(i),
                value: ValueView::Text(argv[i]),
            }),
{
}

/// Every variable of a command is traced: its name and then its value, under its place.
pub proof fn lemma_traced_environment(env: Seq<(Seq<char>, Seq<char>)>, i: int)
    requires
        0 <= i < env.len(),
    ensures
        env_fields(env).len() == 2 * env.len(),
        env_fields(env)[2 * i] == (FieldView {
            key: "env_key"@,
            ordinal: Some(i),
            value: ValueView::Text(env[i].0),
        }),
        env_fields(env)[2 * i + 1] == (FieldView {
            key: "env_value"@,
            ordinal: Some(i),
            value: ValueView::Text(env[i].1),
        }),
    decreases env.len(),
{
    let front = env.drop_last();
    lemma_environment_length(front);
    if i < front.len() {
        lemma_traced_environment(front, i);
        assert(front[i] == env[i]);
    }
    assert(env_fields(env).len() == 2 * env.len());
}

proof fn lemma_environment_length(env: Seq<(Seq<char>, Seq<char>)>)
    ensures
        env_fields(env).len() == 2 * env.len(),
    decreases env.len(),
{
    if env.len() > 0 {
        lemma_environment_length(env.drop_last());
    }
}

/// Whatever goes over a channel is traced with the channel it went over and with every
/// byte; input and output have names of their own.
pub proof fn lemma_traced_bytes(id: u64, bytes: Vec<u8>)
    ensures
        ({
            let fields = seq![
                channel_field(id),
                FieldView {
                    key: "len"@,
                    ordinal: None,
                    value: ValueView::Integer(bytes@.len() as int),
                },
                FieldView { key: "bytes"@, ordinal: None, value: ValueView::Blob(bytes@) },
            ];
            &&& client_event(Message::Data { channel_id: id, bytes }) == Some(
                EventView { name: "client_stdin"@, fields },
            )
            &&& agent_event(Message::Data { channel_id: id, bytes }) == Some(
                EventView { name: "guest_stdout"@, fields },
            )
            &&& agent_event(Message::Stderr { channel_id: id, bytes }) == Some(
                EventView { name: "guest_stderr"@, fields },
            )
            &&& client_event(Message::Stderr { channel_id: id, bytes }) is None
        }),
{
}

/// The end of a command is traced with its status, and an error with its text.
pub proof fn lemma_traced_ends(id: u64, status: i32, message: String)
    ensures
        agent_event(Message::ExitStatus { channel_id: id, status }) matches Some(e) && e.name
            == "guest_exit_status"@ && e.fields.len() == 2 && e.fields[0] == channel_field(id)
            && e.fields[1].key == "status"@ && e.fields[1].value == ValueView::Integer(
            status as int,
        ),
        agent_event(Message::Error { channel_id: id, message }) matches Some(e) && e.name
            == "guest_error"@ && e.fields.len() == 2 && e.fields[0] == channel_field(id)
            && e.fields[1].key == "message"@ && e.fields[1].value == ValueView::Text(message@),
        agent_event(Message::Close { channel_id: id }) matches Some(e) && e.name == "guest_close"@
            && e.fields == seq![channel_field(id)],
        agent_event(Message::Eof { channel_id: id }) matches Some(e) && e.name == "guest_eof"@
            && e.fields == seq![channel_field(id)],
        client_event(Message::Close { channel_id: id }) matches Some(e) && e.name
            == "client_close"@ && e.fields == seq![channel_field(id)],
        client_event(Message::Eof { channel_id: id }) matches Some(e) && e.name == "client_eof"@
            && e.fields == seq![channel_field(id)],
{
}

/// A command that a client opens is traced with all that was asked for: where and as whom
/// it runs, its terminal, its arguments and its environment.
#[verifier::spinoff_prover]
#[verifier::rlimit(40)]
pub proof fn lemma_traced_command(
    id: u64,
    argv: Vec<String>,
    cwd: String,
    pty: bool,
    term: String,
    colorterm: String,
    rows: u16,
    cols: u16,
    uid: u32,
    gid: u32,
    group: String,
    env: Vec<(String, String)>,
)
    ensures
        ({
            let message = Message::OpenExec {
                channel_id: id,
                argv,
                cwd,
                pty,
                term,
                colorterm,
                rows,
                cols,
                uid,
                gid,
                group,
                env,
            };
            client_open_event(message) matches Some(e) && {
                let n = argv@.len() as int;
                &&& e.name == "client_open_exec"@
                &&& e.fields.len() == 10 + n + 2 * env@.len()
                &&& e.fields[0] == channel_field(id)
                &&& e.fields.contains(text_field("cwd"@, cwd@))
                &&& e.fields.contains(bool_field("pty"@, pty))
                &&& e.fields.contains(text_field("term"@, term@))
                &&& e.fields.contains(text_field("colorterm"@, colorterm@))
                &&& e.fields.contains(integer_field("rows"@, rows as int))
                &&& e.fields.contains(integer_field("cols"@, cols as int))
                &&& e.fields.contains(integer_field("uid"@, uid as int))
                &&& e.fields.contains(integer_field("gid"@, gid as int))
                &&& e.fields.contains(text_field("group"@, group@))
                &&& e.fields.subrange(10, 10 + n) == argv_fields(text::views(argv@))
                &&& e.fields.skip(10 + n) == env_fields(crate::stamps::pair_views(env@))
            }
        }),
{
    let message = Message::OpenExec {
        channel_id: id,
        argv,
        cwd,
        pty,
        term,
        colorterm,
        rows,
        cols,
        uid,
        gid,
        group,
        env,
    };
    let fields = open_exec_fields(message);
    let n = argv@.len() as int;
    lemma_environment_length(crate::stamps::pair_views(env@));
    assert(fields[1] == text_field("cwd"@, cwd@));
    assert(fields[2] == bool_field("pty"@, pty));
    assert(fields[3] == text_field("term"@, term@));
    assert(fields[4] == text_field("colorterm"@, colorterm@));
    assert(fields[5] == integer_field("rows"@, rows as int));
    assert(fields[6] == integer_field("cols"@, cols as int));
    assert(fields[7] == integer_field("uid"@, uid as int));
    assert(fields[8] == integer_field("gid"@, gid as int));
    assert(fields[9] == text_field("group"@, group@));
    assert(fields.subrange(10, 10 + n) =~= argv_fields(text::views(argv@)));
    assert(fields.skip(10 + n) =~= env_fields(crate::stamps::pair_views(env@)));
}

/// A connection that a client opens is traced with where it goes, a change of size with
/// the size, and a checkpoint and a start with their channels.
pub proof fn lemma_traced_requests(id: u64, host: String, port: u16, rows: u16, cols: u16)
    ensures
        client_open_event(Message::OpenTcp { channel_id: id, host, port }) matches Some(e)
            && e.name == "client_open_tcp"@ && e.fields.len() == 3 && e.fields[0] == channel_field(
            id,
        ) && e.fields[1] == text_field("host"@, host@) && e.fields[2] == integer_field(
            "port"@,
            port as int,
        ),
        client_event(Message::WindowResize { channel_id: id, rows, cols }) matches Some(e)
            && e.name == "client_window_resize"@ && e.fields.len() == 3 && e.fields[0]
            == channel_field(id) && e.fields[1] == integer_field("rows"@, rows as int)
            && e.fields[2] == integer_field("cols"@, cols as int),
        agent_event(Message::ExecStarted { channel_id: id }) matches Some(e) && e.name
            == "guest_exec_started"@ && e.fields == seq![channel_field(id)],
        agent_event(Message::CheckpointCreated { channel_id: id }) matches Some(e) && e.name
            == "guest_checkpoint_created"@ && e.fields == seq![channel_field(id)],
        bool_field("pty"@, true).value == ValueView::Integer(1),
        bool_field("pty"@, false).value == ValueView::Integer(0),
{
}

/// What is traced of a field: its name, its place where it has one, and its value.
pub proof fn lemma_view_of_a_field(f: TraceField, fields: Seq<TraceField>)
    ensures
        f@.key == f.key@,
        f.ordinal matches Some(n) ==> f@.ordinal == Some(n as int),
        f.ordinal is None ==> f@.ordinal is None,
        f.value matches TraceValue::Text(s) ==> f@.value == ValueView::Text(s@),
        f.value matches TraceValue::Integer(n) ==> f@.value == ValueView::Integer(n as int),
        f.value matches TraceValue::Blob(b) ==> f@.value == ValueView::Blob(b@),
        fields_view(fields).len() == fields.len(),
        forall|i: int| 0 <= i < fields.len() ==> #[trigger] fields_view(fields)[i] == fields[i]@,
{
}

} // verus!
