//! Pushing a sandbox to a server: what is pushed, the steps of a push, and what is told
//! of it.
use vstd::prelude::*;

use crate::bundle::CollectedFile;
use crate::cas;
use crate::cas::CasManifestBlock;
use crate::cas::CasManifestFile;
use crate::cas::CasUploadManifest;
use crate::names;
use crate::paths;
use crate::paths::Layout;
use crate::sparse;
use crate::text;

verus! {

/// What is pushed, and where to.
#[derive(Debug, PartialEq, Eq)]
pub struct PushConfig {
    pub source: Layout,
    pub url: String,
    pub target_instance: String,
    pub replace: bool,
    pub start: bool,
    pub idle_ttl_ms: Option<u64>,
    pub command: Vec<String>,
}

/// Why nothing is pushed.
#[derive(Debug, PartialEq, Eq)]
pub enum PushRefusal {
    Name { name: String },
    NoSource { instance: String },
    /// The instance was started while a copy of it was made.
    Started { instance: String },
}

impl PushRefusal {
    /// The message shown to the user.
    pub fn message(&self) -> (m: String)
        ensures
            m@ == (match *self {
                PushRefusal::Name { name } => "invalid instance name: "@ + name@,
                PushRefusal::NoSource { instance } => "source instance does not exist: "@
                    + instance@,
                PushRefusal::Started { instance } => "source instance "@ + instance@
                    + " started while its push snapshot was being prepared; retry so it can be checkpointed coherently"@,
            }),
    {
        match self {
            PushRefusal::Name { name } => {
                let mut m: String = "invalid instance name: ".to_owned();
                m.append(name.as_str());
                m
            },
            PushRefusal::NoSource { instance } => {
                let mut m: String = "source instance does not exist: ".to_owned();
                m.append(instance.as_str());
                m
            },
            PushRefusal::Started { instance } => {
                let mut m: String = "source instance ".to_owned();
                m.append(instance.as_str());
                m.append(
                    " started while its push snapshot was being prepared; retry so it can be checkpointed coherently",
                );
                m
            },
        }
    }
}

/// Checks that there is something to push.
pub fn check_push(config: &PushConfig, source_exists: bool) -> (r: Result<(), PushRefusal>)
    ensures
        if !names::is_instance_name(config.source.instance@) {
            r matches Err(PushRefusal::Name { name }) && name@ == config.source.instance@
        } else if !names::is_instance_name(config.target_instance@) {
            r matches Err(PushRefusal::Name { name }) && name@ == config.target_instance@
        } else if !source_exists {
            r matches Err(PushRefusal::NoSource { instance }) && instance@
                == config.source.instance@
        } else {
            r is Ok
        },
{
    if !names::instance_name_is_valid(config.source.instance.as_str()) {
        return Err(PushRefusal::Name { name: config.source.instance.clone() });
    }
    if !names::instance_name_is_valid(config.target_instance.as_str()) {
        return Err(PushRefusal::Name { name: config.target_instance.clone() });
    }
    if !source_exists {
        return Err(PushRefusal::NoSource { instance: config.source.instance.clone() });
    }
    Ok(())
}

/// What is pushed of an instance.
#[derive(Clone, Copy, PartialEq, Eq, Structural, Debug)]
pub enum PushSource {
    /// It runs: a checkpoint of it.
    Checkpoint,
    /// It is stopped: a copy, made while it cannot be started.
    StoppedCopy,
}

/// What is pushed of an instance.
pub fn push_source(owner_is_live: bool) -> (r: PushSource)
    ensures
        r == (if owner_is_live {
            PushSource::Checkpoint
        } else {
            PushSource::StoppedCopy
        }),
{
    if owner_is_live {
        PushSource::Checkpoint
    } else {
        PushSource::StoppedCopy
    }
}

/// What is said before a running instance is pushed.
pub fn checkpointing_line(instance: &str) -> (m: String)
    ensures
        m@ == "source instance "@ + instance@ + " is running; checkpointing before push"@,
{
    let mut m: String = "source instance ".to_owned();
    m.append(instance);
    m.append(" is running; checkpointing before push");
    m
}

/// Checks that a copy of a stopped instance was made: none is where it was started.
pub fn check_stopped_copy(instance: &str, copied: bool) -> (r: Result<(), PushRefusal>)
    ensures
        copied ==> r is Ok,
        !copied ==> (r matches Err(PushRefusal::Started { instance: i }) && i@ == instance@),
{
    if copied {
        Ok(())
    } else {
        Err(PushRefusal::Started { instance: instance.to_owned() })
    }
}

/// What came of a checkpoint that was made to be pushed, and then removed.
#[derive(Clone, Copy, PartialEq, Eq, Structural, Debug)]
pub enum CheckpointResult {
    Made,
    /// It failed.
    Failed,
    /// It was made, and could not be removed.
    NotRemoved,
    /// It failed, and what there was of it could not be removed.
    FailedAndNotRemoved,
}

/// What came of a checkpoint that was made to be pushed. An error of the checkpoint is
/// told before one of its removal.
pub fn checkpoint_result(made: bool, removed: bool) -> (r: CheckpointResult)
    ensures
        r == (if made && removed {
            CheckpointResult::Made
        } else if removed {
            CheckpointResult::Failed
        } else if made {
            CheckpointResult::NotRemoved
        } else {
            CheckpointResult::FailedAndNotRemoved
        }),
{
    if made && removed {
        CheckpointResult::Made
    } else if removed {
        CheckpointResult::Failed
    } else if made {
        CheckpointResult::NotRemoved
    } else {
        CheckpointResult::FailedAndNotRemoved
    }
}

/// The context of an error of a checkpoint that could not be removed either.
pub fn not_removed_context(error: &str) -> (m: String)
    ensures
        m@ == "also failed to clean temporary checkpoint: "@ + error@,
{
    let mut m: String = "also failed to clean temporary checkpoint: ".to_owned();
    m.append(error);
    m
}

/// Where an instance keeps its files below a directory of its own.
pub fn checkpoint_bundle_layout(source: &Layout, base: &str) -> (r: Layout)
    ensures
        ({
            let dir = paths::joined(paths::joined(base@, "instances"@), source.instance@);
            &&& r.base@ == base@
            &&& r.instance@ == source.instance@
            &&& r.kernel@ == paths::joined(base@, "vmlinuz"@)
            &&& r.rootfs@ == paths::joined(dir, "rootfs.ext4"@)
            &&& r.instance_dir@ == dir
            &&& r.snapshot_dir@ == paths::joined(dir, "memory-snapshots"@)
            &&& r.checkpoint_dir@ == paths::joined(dir, "checkpoints"@)
            &&& r.vm_initialized@ == paths::joined(dir, "vm-initialized"@)
            &&& r.run_dir@ == dir
            &&& r.console_log@ == paths::joined(dir, "console.log"@)
        }),
{
    let instances: String = paths::join(base, "instances");
    let dir: String = paths::join(instances.as_str(), source.instance.as_str());
    Layout {
        base: base.to_owned(),
        instance: source.instance.clone(),
        kernel: paths::join(base, "vmlinuz"),
        rootfs: paths::join(dir.as_str(), "rootfs.ext4"),
        instance_dir: dir.clone(),
        snapshot_dir: paths::join(dir.as_str(), "memory-snapshots"),
        checkpoint_dir: paths::join(dir.as_str(), "checkpoints"),
        vm_initialized: paths::join(dir.as_str(), "vm-initialized"),
        run_dir: dir.clone(),
        console_log: paths::join(dir.as_str(), "console.log"),
    }
}

/// A file of the manifest: one that was collected, by the blocks of its pieces.
pub fn manifest_file(file: CollectedFile, blocks: Vec<CasManifestBlock>) -> (f: CasManifestFile)
    ensures
        f.path == file.relative,
        f.len == file.len,
        f.mode == file.mode,
        f.blocks == blocks,
{
    CasManifestFile { path: file.relative, len: file.len, mode: file.mode, blocks }
}

/// Whether a file of a manifest is one that was collected, by the blocks of its pieces.
pub open spec fn is_collected(f: CasManifestFile, file: CollectedFile) -> bool {
    &&& f.path == file.relative
    &&& f.len == file.len
    &&& cas::are_blocks_for(cas::block_views(f.blocks@), cas::all_pieces(file.extents@))
}

/// Whether the files of an instance can be pushed: each has a name of its own below its
/// directory, and its extents are in order and in the file.
pub open spec fn can_be_pushed(files: Seq<CollectedFile>) -> bool {
    &&& forall|i: int|
        0 <= i < files.len() ==> {
            let f = #[trigger] files[i];
            &&& f.relative@.len() > 0
            &&& cas::is_safe_path(f.relative@)
            &&& sparse::are_ordered(f.extents@, f.len)
        }
    &&& forall|i: int, j: int|
        0 <= i < j < files.len() ==> (#[trigger] files[i]).relative@ != (
        #[trigger] files[j]).relative@
}

/// The server accepts the manifest of a push: where the files of an instance can be pushed,
/// a manifest of these files by the blocks of their pieces has no fault.
pub proof fn lemma_pushed_manifests_are_accepted(
    m: CasUploadManifest,
    collected: Seq<CollectedFile>,
)
    requires
        names::is_instance_name(m.source_instance@),
        can_be_pushed(collected),
        m.files@.len() == collected.len(),
        forall|i: int| 0 <= i < collected.len() ==> is_collected(#[trigger] m.files@[i], collected[i]),
    ensures
        cas::manifest_problem(m.source_instance@, cas::file_views(m.files@)) is None,
{
    let files = cas::file_views(m.files@);
    assert forall|i: int| 0 <= i < files.len() implies ({
        let f = #[trigger] files[i];
        f.path.len() > 0 && cas::is_safe_path(f.path) && cas::are_valid_blocks(f.len, f.blocks)
    }) by {
        assert(is_collected(m.files@[i], collected[i]));
        cas::lemma_blocks_for_are_valid(
            collected[i].len,
            collected[i].extents@,
            cas::block_views(m.files@[i].blocks@),
        );
    }
    assert forall|i: int, j: int| 0 <= i < j < files.len() implies (#[trigger] files[i]).path != (
    #[trigger] files[j]).path by {
        assert(is_collected(m.files@[i], collected[i]));
        assert(is_collected(m.files@[j], collected[j]));
    }
    cas::lemma_accepted_manifests_are_valid(m.source_instance@, files);
}

/// The manifest of a push.
pub fn upload_manifest(instance: &str, config: &PushConfig, files: Vec<CasManifestFile>) -> (m:
    CasUploadManifest)
    ensures
        m.version == cas::CAS_MANIFEST_VERSION,
        m.source_instance@ == instance@,
        m.replace == config.replace,
        m.start == config.start,
        m.idle_ttl_ms == config.idle_ttl_ms,
        text::views(m.command@) == text::views(config.command@),
        m.files == files,
{
    CasUploadManifest {
        version: cas::CAS_MANIFEST_VERSION,
        source_instance: instance.to_owned(),
        replace: config.replace,
        start: config.start,
        idle_ttl_ms: config.idle_ttl_ms,
        command: text::copy_all(&config.command),
        files,
    }
}

// ---------------------------------------------------------------------------
// The steps of a push
// ---------------------------------------------------------------------------

/// How long the owner of a running instance may take to answer before it is asked for a
/// checkpoint all the same, in milliseconds.
pub const CHECKPOINT_OWNER_MS: u64 = 120000;

/// How long to wait between two looks for the owner, in milliseconds.
pub const CHECKPOINT_POLL_MS: u64 = 10;

/// What to do next about the checkpoint of a running instance.
#[derive(Clone, Copy, PartialEq, Eq, Structural, Debug)]
pub enum CheckpointWait {
    /// Look for the owner again after this many milliseconds.
    Sleep(u64),
    /// Ask for the checkpoint.
    Ask,
}

/// Decides whether to wait for the owner of a running instance or to ask it for a
/// checkpoint. One that does not answer in time is asked too: that gives the error.
pub fn checkpoint_wait_step(owner_answers: bool, elapsed_ms: u64) -> (r: CheckpointWait)
    ensures
        r == (if owner_answers || elapsed_ms >= CHECKPOINT_OWNER_MS {
            CheckpointWait::Ask
        } else {
            CheckpointWait::Sleep(CHECKPOINT_POLL_MS)
        }),
        r is Ask <==> owner_answers || elapsed_ms >= 120000,
{
    if owner_answers || elapsed_ms >= CHECKPOINT_OWNER_MS {
        CheckpointWait::Ask
    } else {
        CheckpointWait::Sleep(CHECKPOINT_POLL_MS)
    }
}

/// What is done next in a push.
#[derive(Clone, Copy, PartialEq, Eq, Structural, Debug)]
pub enum PushPhase {
    /// Send the manifest, and learn which blocks are missing.
    Begin,
    /// Pack the missing blocks.
    Pack,
    /// Send them.
    Send,
    /// Ask the server to put the sandbox in place.
    Commit,
    /// Ask the server to forget the upload.
    Abort,
    Pushed,
    Failed,
}

/// What came of the step that a push is at.
#[derive(Clone, Copy, PartialEq, Eq, Structural, Debug)]
pub enum PushEvent {
    /// The server began the upload, and some blocks are missing or none is.
    Begun { any_missing: bool },
    /// The step was done.
    Done,
    /// The step failed.
    Failed,
}

/// The step that follows in a push. What was begun and not put in place is forgotten,
/// whether or not the server can be told.
pub open spec fn push_next(phase: PushPhase, event: PushEvent) -> PushPhase {
    match phase {
        PushPhase::Begin => match event {
            PushEvent::Begun { any_missing } => if any_missing {
                PushPhase::Pack
            } else {
                PushPhase::Commit
            },
            _ => PushPhase::Failed,
        },
        PushPhase::Pack => if event is Done {
            PushPhase::Send
        } else {
            PushPhase::Abort
        },
        PushPhase::Send => if event is Done {
            PushPhase::Commit
        } else {
            PushPhase::Abort
        },
        PushPhase::Commit => if event is Done {
            PushPhase::Pushed
        } else {
            PushPhase::Abort
        },
        PushPhase::Abort => PushPhase::Failed,
        PushPhase::Pushed => PushPhase::Pushed,
        PushPhase::Failed => PushPhase::Failed,
    }
}

/// The step that follows in a push.
pub fn push_step(phase: PushPhase, event: PushEvent) -> (r: PushPhase)
    ensures
        r == push_next(phase, event),
{
    let done: bool = matches!(event, PushEvent::Done);
    match phase {
        PushPhase::Begin => match event {
            PushEvent::Begun { any_missing } => if any_missing {
                PushPhase::Pack
            } else {
                PushPhase::Commit
            },
            _ => PushPhase::Failed,
        },
        PushPhase::Pack => if done {
            PushPhase::Send
        } else {
            PushPhase::Abort
        },
        PushPhase::Send => if done {
            PushPhase::Commit
        } else {
            PushPhase::Abort
        },
        PushPhase::Commit => if done {
            PushPhase::Pushed
        } else {
            PushPhase::Abort
        },
        PushPhase::Abort => PushPhase::Failed,
        PushPhase::Pushed => PushPhase::Pushed,
        PushPhase::Failed => PushPhase::Failed,
    }
}

/// Where a push stands after events.
pub open spec fn after_events(events: Seq<PushEvent>) -> PushPhase
    decreases events.len(),
{
    if events.len() == 0 {
        PushPhase::Begin
    } else {
        push_next(after_events(events.drop_last()), events.last())
    }
}

/// Whether the server began an upload.
pub open spec fn was_begun(events: Seq<PushEvent>) -> bool {
    events.len() > 0 && events[0] is Begun
}

/// Whether a step after the first failed.
pub open spec fn some_step_failed(events: Seq<PushEvent>) -> bool
    decreases events.len(),
{
    if events.len() <= 1 {
        false
    } else {
        some_step_failed(events.drop_last()) || (events.last() !is Done && (after_events(
            events.drop_last(),
        ) is Pack || after_events(events.drop_last()) is Send || after_events(
            events.drop_last(),
        ) is Commit))
    }
}

/// An upload that the server began is either put in place, or the server is asked to
/// forget it: a push fails without that only where nothing was begun.
pub proof fn lemma_no_upload_is_left_behind(events: Seq<PushEvent>)
    ensures
        after_events(events) is Abort ==> was_begun(events) && some_step_failed(events),
        after_events(events) is Failed && was_begun(events) ==> exists|n: int|
            0 <= n < events.len() && #[trigger] after_events(events.take(n)) is Abort,
        after_events(events) is Failed && !was_begun(events) ==> !some_step_failed(events),
        after_events(events) is Pushed ==> was_begun(events) && !some_step_failed(events),
        events.len() > 0 && !was_begun(events) ==> after_events(events) is Failed,
        after_events(events) is Pack || after_events(events) is Send || after_events(
            events,
        ) is Commit ==> was_begun(events) && !some_step_failed(events),
    decreases events.len(),
{
    if events.len() > 0 {
        let before = events.drop_last();
        lemma_no_upload_is_left_behind(before);
        assert(before.len() > 0 ==> before[0] == events[0]);
        if before.len() == 0 {
            assert(after_events(before) is Begin);
        }
        if after_events(events) is Failed && was_begun(events) {
            if after_events(before) is Abort {
                assert(events.take(events.len() - 1) =~= before);
            } else if after_events(before) is Failed {
                let n = choose|n: int|
                    0 <= n < before.len() && #[trigger] after_events(before.take(n)) is Abort;
                assert(before.take(n) =~= events.take(n));
            }
        }
    }
}

/// Nothing is put in place before the blocks that are missing were sent.
pub proof fn lemma_blocks_go_before_the_commit(phase: PushPhase, event: PushEvent)
    requires
        push_next(phase, event) is Commit,
    ensures
        match phase {
            PushPhase::Begin => event == (PushEvent::Begun { any_missing: false }),
            PushPhase::Send => event is Done,
            _ => false,
        },
{
}

// ---------------------------------------------------------------------------
// URLs
// ---------------------------------------------------------------------------

/// How many characters the URL of a server, or a name in a path on it, may have.
pub const URL_MAX_CHARS: usize = 0x400_0000;

/// The URL of a path on the server that another URL names, if that is one.
pub uninterp spec fn url_with(base: Seq<char>, path: Seq<char>) -> Option<Seq<char>>;

/// Reads a URL with `reqwest::Url::parse`, replaces its path with `Url::set_path` and
/// writes it out with `Url::as_str`. What comes out depends on the two texts alone; which
/// texts are URLs and how a path is escaped is left to these functions. A URL has to fit
/// into four gigabytes; a character takes twelve bytes at most when it is escaped.
#[verifier::external_body]
fn url_with_path(base: &str, path: &str) -> (r: Option<String>)
    requires
        base@.len() <= URL_MAX_CHARS,
        path@.len() <= URL_MAX_CHARS + 64,
    ensures
        text::opt_string(r) == url_with(base@, path@),
{
    let mut url = reqwest::Url::parse(base).ok()?;
    url.set_path(path);
    Some(url.as_str().to_owned())
}

/// A text that is no URL.
#[derive(Debug, PartialEq, Eq)]
pub struct BadUrl {
    pub base: String,
}

impl BadUrl {
    /// The message shown to the user.
    pub fn message(&self) -> (m: String)
        ensures
            m@ == "parse server URL "@ + self.base@,
    {
        let mut m: String = "parse server URL ".to_owned();
        m.append(self.base.as_str());
        m
    }
}

/// Whether this is the URL of a path on a server.
pub open spec fn is_url(base: Seq<char>, path: Seq<char>, r: Result<String, BadUrl>) -> bool {
    match url_with(base, path) {
        Some(url) => r matches Ok(u) && u@ == url,
        None => r matches Err(e) && e.base@ == base,
    }
}

fn server_url(base: &str, path: &str) -> (r: Result<String, BadUrl>)
    requires
        base@.len() <= URL_MAX_CHARS,
        path@.len() <= URL_MAX_CHARS + 64,
    ensures
        is_url(base@, path@, r),
{
    match url_with_path(base, path) {
        Some(url) => Ok(url),
        None => Err(BadUrl { base: base.to_owned() }),
    }
}

/// The URL of the whole of an instance on a server.
pub fn sandbox_url(base: &str, instance: &str) -> (r: Result<String, BadUrl>)
    requires
        base@.len() <= URL_MAX_CHARS,
        instance@.len() <= URL_MAX_CHARS,
    ensures
        is_url(base@, "/v1/sandboxes/"@ + instance@, r),
{
    proof {
        reveal_strlit("/v1/sandboxes/");
    }
    let mut p: String = "/v1/sandboxes/".to_owned();
    p.append(instance);
    server_url(base, p.as_str())
}

/// The URL under which an upload is begun.
pub fn cas_upload_url(base: &str, instance: &str) -> (r: Result<String, BadUrl>)
    requires
        base@.len() <= URL_MAX_CHARS,
        instance@.len() <= URL_MAX_CHARS,
    ensures
        is_url(base@, "/v2/sandboxes/"@ + instance@ + "/uploads"@, r),
{
    proof {
        reveal_strlit("/v2/sandboxes/");
        reveal_strlit("/uploads");
    }
    let mut p: String = "/v2/sandboxes/".to_owned();
    p.append(instance);
    p.append("/uploads");
    server_url(base, p.as_str())
}

/// The URL that the blocks of an upload are sent to.
pub fn cas_blocks_url(base: &str, session: &str) -> (r: Result<String, BadUrl>)
    requires
        base@.len() <= URL_MAX_CHARS,
        session@.len() <= URL_MAX_CHARS,
    ensures
        is_url(base@, "/v2/uploads/"@ + session@ + "/blocks"@, r),
{
    proof {
        reveal_strlit("/v2/uploads/");
        reveal_strlit("/blocks");
    }
    let mut p: String = "/v2/uploads/".to_owned();
    p.append(session);
    p.append("/blocks");
    server_url(base, p.as_str())
}

/// The URL under which an upload is put in place.
pub fn cas_commit_url(base: &str, session: &str) -> (r: Result<String, BadUrl>)
    requires
        base@.len() <= URL_MAX_CHARS,
        session@.len() <= URL_MAX_CHARS,
    ensures
        is_url(base@, "/v2/uploads/"@ + session@ + "/commit"@, r),
{
    proof {
        reveal_strlit("/v2/uploads/");
        reveal_strlit("/commit");
    }
    let mut p: String = "/v2/uploads/".to_owned();
    p.append(session);
    p.append("/commit");
    server_url(base, p.as_str())
}

/// The URL of an upload.
pub fn cas_session_url(base: &str, session: &str) -> (r: Result<String, BadUrl>)
    requires
        base@.len() <= URL_MAX_CHARS,
        session@.len() <= URL_MAX_CHARS,
    ensures
        is_url(base@, "/v2/uploads/"@ + session@, r),
{
    proof {
        reveal_strlit("/v2/uploads/");
    }
    let mut p: String = "/v2/uploads/".to_owned();
    p.append(session);
    server_url(base, p.as_str())
}

// ---------------------------------------------------------------------------
// What is told
// ---------------------------------------------------------------------------

/// What a server says of an error: its message, where it gives one, or else all that it
/// said. `message` is the message in what it said, where it is a record with one.
pub fn server_error_message(reply: &str, message: Option<String>) -> (m: String)
    ensures
        m@ == error_words(reply@, text::opt_string(message)),
{
    match message {
        Some(m) => if m.as_str().is_empty() {
            reply.to_owned()
        } else {
            m
        },
        None => reply.to_owned(),
    }
}

/// What a server says of an error.
pub open spec fn error_words(reply: Seq<char>, message: Option<Seq<char>>) -> Seq<char> {
    match message {
        Some(m) => if m.len() == 0 {
            reply
        } else {
            m
        },
        None => reply,
    }
}

/// The message for a request that a server did not grant.
pub fn server_refusal(status: &str, reply: &str, message: Option<String>) -> (m: String)
    ensures
        m@ == "server returned "@ + status@ + ": "@ + error_words(
            reply@,
            text::opt_string(message),
        ),
{
    let mut m: String = "server returned ".to_owned();
    m.append(status);
    m.append(": ");
    m.append(server_error_message(reply, message).as_str());
    m
}

/// What is told of an upload that was begun.
pub fn dedupe_line(known: u64, missing: u64, logical_bytes: u64, missing_bytes: u64) -> (m: String)
    ensures
        m@ == "dedupe: "@ + text::dec(known as nat) + " known blocks, "@ + text::dec(
            missing as nat,
        ) + " missing blocks, "@ + bytes_text(logical_bytes as nat) + " logical, "@ + bytes_text(
            missing_bytes as nat,
        ) + " to upload"@,
{
    let mut m: String = "dedupe: ".to_owned();
    text::push_dec(&mut m, known as u128);
    m.append(" known blocks, ");
    text::push_dec(&mut m, missing as u128);
    m.append(" missing blocks, ");
    m.append(human_bytes(logical_bytes).as_str());
    m.append(" logical, ");
    m.append(human_bytes(missing_bytes).as_str());
    m.append(" to upload");
    m
}

/// What is told of blocks that were stored.
pub fn stored_line(blocks: u64) -> (m: String)
    ensures
        m@ == "server stored "@ + text::dec(blocks as nat) + " blocks"@,
{
    let mut m: String = "server stored ".to_owned();
    text::push_dec(&mut m, blocks as u128);
    m.append(" blocks");
    m
}

/// A quotient, rounded to the nearest number, and to the even one of two as near.
pub open spec fn rounded(n: nat, d: nat) -> nat
    recommends
        d > 0,
{
    if 2 * (n % d) > d || (2 * (n % d) == d && (n / d) % 2 == 1) {
        n / d + 1
    } else {
        n / d
    }
}

fn round(n: u128, d: u128) -> (r: u128)
    requires
        0 < d <= u64::MAX,
        n <= 0xffff_ffff_ffff_ffff_ffff_ffff,
    ensures
        r == rounded(n as nat, d as nat),
        r <= n / d + 1,
{
    let q: u128 = n / d;
    let rest: u128 = n % d;
    assert(q <= n) by (nonlinear_arith)
        requires
            q == n / d,
            d > 0,
    ;
    if 2 * rest > d || (2 * rest == d && q % 2 == 1) {
        q + 1
    } else {
        q
    }
}

/// The distance of the numbers of 53 binary digits around a number.
pub open spec fn spacing(n: nat) -> nat {
    if n < 0x20_0000_0000_0000 {
        1
    } else if n < 0x40_0000_0000_0000 {
        2
    } else if n < 0x80_0000_0000_0000 {
        4
    } else if n < 0x100_0000_0000_0000 {
        8
    } else if n < 0x200_0000_0000_0000 {
        16
    } else if n < 0x400_0000_0000_0000 {
        32
    } else if n < 0x800_0000_0000_0000 {
        64
    } else if n < 0x1000_0000_0000_0000 {
        128
    } else if n < 0x2000_0000_0000_0000 {
        256
    } else if n < 0x4000_0000_0000_0000 {
        512
    } else if n < 0x8000_0000_0000_0000 {
        1024
    } else {
        2048
    }
}

fn spacing_of(n: u64) -> (r: u128)
    ensures
        r == spacing(n as nat),
        1 <= r <= 2048,
{
    if n < 0x20_0000_0000_0000 {
        1
    } else if n < 0x40_0000_0000_0000 {
        2
    } else if n < 0x80_0000_0000_0000 {
        4
    } else if n < 0x100_0000_0000_0000 {
        8
    } else if n < 0x200_0000_0000_0000 {
        16
    } else if n < 0x400_0000_0000_0000 {
        32
    } else if n < 0x800_0000_0000_0000 {
        64
    } else if n < 0x1000_0000_0000_0000 {
        128
    } else if n < 0x2000_0000_0000_0000 {
        256
    } else if n < 0x4000_0000_0000_0000 {
        512
    } else if n < 0x8000_0000_0000_0000 {
        1024
    } else {
        2048
    }
}

/// The nearest number of 53 binary digits.
pub open spec fn short_number(n: nat) -> nat {
    rounded(n, spacing(n)) * spacing(n)
}

/// The unit that a size is given in: its size and its name.
pub open spec fn unit_of(n: nat) -> (nat, Seq<char>) {
    if n < 0x400 {
        (1, "B"@)
    } else if n < 0x10_0000 {
        (0x400, "KiB"@)
    } else if n < 0x4000_0000 {
        (0x10_0000, "MiB"@)
    } else if n < 0x100_0000_0000 {
        (0x4000_0000, "GiB"@)
    } else {
        (0x100_0000_0000, "TiB"@)
    }
}

/// A size for people to read: bytes below a KiB, and else the largest unit that it
/// reaches, to two digits below ten of them and to one from ten on. Sizes with more than
/// 53 binary digits are rounded to that many before.
pub open spec fn bytes_text(bytes: nat) -> Seq<char> {
    let n = short_number(bytes);
    let (unit, name) = unit_of(n);
    if unit == 1 {
        text::dec(bytes) + " "@ + name
    } else if n >= 10 * unit {
        let tenths = rounded(10 * n, unit);
        text::dec(tenths / 10) + "."@ + text::dec_padded(tenths % 10, 1) + " "@ + name
    } else {
        let hundredths = rounded(100 * n, unit);
        text::dec(hundredths / 100) + "."@ + text::dec_padded(hundredths % 100, 2) + " "@ + name
    }
}

fn unit_for(n: u128) -> (r: (u128, &'static str))
    ensures
        r.0 == unit_of(n as nat).0,
        r.1@ == unit_of(n as nat).1,
        1 <= r.0 <= 0x100_0000_0000,
{
    if n < 0x400 {
        (1, "B")
    } else if n < 0x10_0000 {
        (0x400, "KiB")
    } else if n < 0x4000_0000 {
        (0x10_0000, "MiB")
    } else if n < 0x100_0000_0000 {
        (0x4000_0000, "GiB")
    } else {
        (0x100_0000_0000, "TiB")
    }
}

/// A size for people to read.
pub fn human_bytes(bytes: u64) -> (m: String)
    ensures
        m@ == bytes_text(bytes as nat),
{
    let space: u128 = spacing_of(bytes);
    let steps: u128 = round(bytes as u128, space);
    assert(steps * space <= 0x2_0000_0000_0000_0000) by (nonlinear_arith)
        requires
            steps <= bytes as u128 / space + 1,
            bytes <= u64::MAX,
            1 <= space <= 2048,
    ;
    let n: u128 = steps * space;
    let (unit, name): (u128, &'static str) = unit_for(n);
    let mut m: String = String::new();
    if unit == 1 {
        text::push_dec(&mut m, bytes as u128);
    } else if n >= 10 * unit {
        let tenths: u128 = round(10 * n, unit);
        text::push_dec(&mut m, tenths / 10);
        m.append(".");
        m.append(text::decimal_padded(tenths % 10, 1).as_str());
    } else {
        let hundredths: u128 = round(100 * n, unit);
        text::push_dec(&mut m, hundredths / 100);
        m.append(".");
        m.append(text::decimal_padded(hundredths % 100, 2).as_str());
    }
    m.append(" ");
    m.append(name);
    assert(m@ =~= bytes_text(bytes as nat));
    m
}

/// Where the mark of a progress bar begins: it goes to the right end, and back.
pub open spec fn mark_start(elapsed_ms: nat) -> nat {
    let phase = (elapsed_ms / 80) % 30;
    if phase <= 15 {
        phase
    } else {
        (30 - phase) as nat
    }
}

/// A frame of a progress bar of twenty places with a mark of five.
pub fn upload_progress_frame(elapsed_ms: u64) -> (m: String)
    ensures
        m@ == Seq::new(
            20,
            |i: int|
                if mark_start(elapsed_ms as nat) <= i < mark_start(elapsed_ms as nat) + 5 {
                    '='
                } else {
                    ' '
                },
        ),
{
    let phase: u64 = (elapsed_ms / 80) % 30;
    let start: u64 = if phase <= 15 {
        phase
    } else {
        30 - phase
    };
    let ghost all = Seq::new(
        20,
        |i: int|
            if mark_start(elapsed_ms as nat) <= i < mark_start(elapsed_ms as nat) + 5 {
                '='
            } else {
                ' '
            },
    );
    let mut m: String = String::new();
    let mut i: u64 = 0;
    while i < 20
        invariant
            i <= 20,
            start <= 15,
            all.len() == 20,
            forall|k: int|
                0 <= k < 20 ==> #[trigger] all[k] == (if start <= k < start + 5 {
                    '='
                } else {
                    ' '
                }),
            m@ == all.take(i as int),
        decreases 20 - i,
    {
        let c: char = if start <= i && i < start + 5 {
            '='
        } else {
            ' '
        };
        m.push(c);
        i = i + 1;
        assert(m@ =~= all.take(i as int));
    }
    assert(all.take(20) =~= all);
    m
}

// ---------------------------------------------------------------------------
// Laws of a push and of sizes
// ---------------------------------------------------------------------------

/// The steps of a push that goes well: with blocks missing they are packed and sent before
/// the commit, and with none missing the commit comes at once.
pub proof fn lemma_push_that_goes_well(any_missing: bool)
    ensures
        after_events(seq![PushEvent::Begun { any_missing }]) == (if any_missing {
            PushPhase::Pack
        } else {
            PushPhase::Commit
        }),
        after_events(
            seq![PushEvent::Begun { any_missing: true }, PushEvent::Done],
        ) == PushPhase::Send,
        after_events(
            seq![PushEvent::Begun { any_missing: true }, PushEvent::Done, PushEvent::Done],
        ) == PushPhase::Commit,
        after_events(
            seq![
                PushEvent::Begun { any_missing: true },
                PushEvent::Done,
                PushEvent::Done,
                PushEvent::Done,
            ],
        ) == PushPhase::Pushed,
        after_events(
            seq![PushEvent::Begun { any_missing: false }, PushEvent::Done],
        ) == PushPhase::Pushed,
{
    let d = PushEvent::Done;
    let b = PushEvent::Begun { any_missing: true };
    let c = PushEvent::Begun { any_missing: false };
    let none = Seq::<PushEvent>::empty();
    assert(after_events(none) == PushPhase::Begin);
    assert(seq![PushEvent::Begun { any_missing }].drop_last() =~= none);
    assert(seq![b].drop_last() =~= none);
    assert(seq![c].drop_last() =~= none);
    assert(after_events(seq![b]) == PushPhase::Pack);
    assert(after_events(seq![c]) == PushPhase::Commit);
    assert(seq![b, d].drop_last() =~= seq![b]);
    assert(seq![c, d].drop_last() =~= seq![c]);
    assert(seq![b, d, d].drop_last() =~= seq![b, d]);
    assert(seq![b, d, d, d].drop_last() =~= seq![b, d, d]);
}

/// A push that was pushed or failed stays so, and one that is undone has failed, whatever
/// comes of the undoing.
pub proof fn lemma_push_stays_over(event: PushEvent)
    ensures
        push_next(PushPhase::Pushed, event) == PushPhase::Pushed,
        push_next(PushPhase::Failed, event) == PushPhase::Failed,
        push_next(PushPhase::Abort, event) == PushPhase::Failed,
        !(event is Done) ==> push_next(PushPhase::Pack, event) == PushPhase::Abort && push_next(
            PushPhase::Send,
            event,
        ) == PushPhase::Abort && push_next(PushPhase::Commit, event) == PushPhase::Abort,
        !(event is Begun) ==> push_next(PushPhase::Begin, event) == PushPhase::Failed,
{
}

/// What a server's error says is its message where it has one, and else all that it
/// answered.
pub proof fn lemma_error_words(reply: Seq<char>, message: Seq<char>)
    ensures
        message.len() > 0 ==> error_words(reply, Some(message)) == message,
        error_words(reply, Some(Seq::empty())) == reply,
        error_words(reply, None) == reply,
{
}

/// A quotient is rounded to the nearest whole number, and to the even one where two are
/// equally near.
pub proof fn lemma_rounded(n: nat, d: nat)
    requires
        d > 0,
    ensures
        2 * d * rounded(n, d) <= 2 * n + d,
        2 * n <= 2 * d * rounded(n, d) + d,
        2 * d * rounded(n, d) == 2 * n + d || 2 * n == 2 * d * rounded(n, d) + d ==> rounded(n, d)
            % 2 == 0,
{
    let (q, r) = (n / d, n % d);
    vstd::arithmetic::div_mod::lemma_fundamental_div_mod(n as int, d as int);
    assert(n == d * q + r);
    assert(2 * d * q == 2 * (d * q)) by (nonlinear_arith);
    assert(2 * d * (q + 1) == 2 * (d * q) + 2 * d) by (nonlinear_arith);
}

/// A size is shown in the largest unit that it reaches: at least one of it, and less than
/// 1024 of it below the largest unit.
pub proof fn lemma_unit(n: nat)
    ensures
        n < 1024 ==> unit_of(n) == (1nat, "B"@),
        n >= 1024 ==> unit_of(n).0 <= n,
        n < 1024 * 1024 * 1024 * 1024 * 1024 ==> n < 1024 * unit_of(n).0,
        unit_of(n).0 == 1024 <==> 1024 <= n < 1024 * 1024,
        unit_of(n).0 == 1024 ==> unit_of(n).1 == "KiB"@,
        unit_of(n).0 == 1024 * 1024 ==> unit_of(n).1 == "MiB"@,
        unit_of(n).0 == 1024 * 1024 * 1024 ==> unit_of(n).1 == "GiB"@,
        unit_of(n).0 == 1024 * 1024 * 1024 * 1024 ==> unit_of(n).1 == "TiB"@,
        unit_of(n).0 == 1 || unit_of(n).0 == 1024 || unit_of(n).0 == 1024 * 1024 || unit_of(n).0
            == 1024 * 1024 * 1024 || unit_of(n).0 == 1024 * 1024 * 1024 * 1024,
{
}

/// A size below 2^53 is shown as it is, and a larger one is first rounded so that it has
/// 53 binary digits.
pub proof fn lemma_short_number(n: nat)
    requires
        n <= u64::MAX,
    ensures
        n < 0x20_0000_0000_0000 ==> short_number(n) == n,
        n >= 0x20_0000_0000_0000 ==> 0x10_0000_0000_0000 <= n / spacing(n) < 0x20_0000_0000_0000,
        2 * short_number(n) <= 2 * n + spacing(n),
        2 * n <= 2 * short_number(n) + spacing(n),
{
    let d = spacing(n);
    lemma_rounded(n, d);
    let r = rounded(n, d);
    assert(2 * d * r == 2 * (r * d)) by (nonlinear_arith);
    if n < 0x20_0000_0000_0000 {
        assert(d == 1);
        assert(n % 1 == 0);
        assert(r * 1 == r) by (nonlinear_arith);
    }
}

/// Whether no whole number is nearer to a quotient.
pub open spec fn is_nearest(k: nat, n: nat, d: nat) -> bool {
    2 * d * k <= 2 * n + d && 2 * n <= 2 * d * k + d
}

/// Whether a size is shown as a number of parts of its unit, with so many to a whole one
/// and so many digits behind the point, and none is nearer.
pub open spec fn is_shown_as(bytes: nat, scale: nat, digits: nat, k: nat) -> bool {
    is_nearest(k, scale * bytes, unit_of(bytes).0) && bytes_text(bytes) == text::dec(k / scale)
        + "."@ + text::dec_padded(k % scale, digits) + " "@ + unit_of(bytes).1
}

/// A size for people is the nearest number with one digit behind the point from ten units
/// on and with two below, and the plain number of bytes below a KiB.
pub proof fn lemma_size_for_people(bytes: nat)
    requires
        bytes < 0x20_0000_0000_0000,
    ensures
        bytes < 1024 ==> bytes_text(bytes) == text::dec(bytes) + " B"@,
        bytes >= 1024 && bytes >= 10 * unit_of(bytes).0 ==> exists|k: nat| #[trigger]
            is_shown_as(bytes, 10, 1, k),
        bytes >= 1024 && bytes < 10 * unit_of(bytes).0 ==> exists|k: nat| #[trigger]
            is_shown_as(bytes, 100, 2, k),
{
    reveal_strlit(" B");
    reveal_strlit(" ");
    reveal_strlit("B");
    lemma_short_number(bytes);
    if bytes < 1024 {
        assert(text::dec(bytes) + " "@ + "B"@ =~= text::dec(bytes) + " B"@);
    } else {
        let unit = unit_of(bytes).0;
        if bytes >= 10 * unit {
            lemma_rounded(10 * bytes, unit);
            assert(is_shown_as(bytes, 10, 1, rounded(10 * bytes, unit)));
        } else {
            lemma_rounded(100 * bytes, unit);
            assert(is_shown_as(bytes, 100, 2, rounded(100 * bytes, unit)));
        }
    }
}

/// The mark of a progress bar stays on the bar, moves one place at a time, and is back
/// where it began after 2400 milliseconds.
pub proof fn lemma_mark_moves(elapsed_ms: nat)
    ensures
        mark_start(elapsed_ms) + 5 <= 20,
        mark_start(elapsed_ms + 80) == mark_start(elapsed_ms) + 1 || mark_start(elapsed_ms + 80) + 1
            == mark_start(elapsed_ms),
        mark_start(elapsed_ms + 2400) == mark_start(elapsed_ms),
        elapsed_ms < 80 ==> mark_start(elapsed_ms) == 0,
        mark_start(elapsed_ms) == 0 ==> mark_start(elapsed_ms + 1200) == 15,
{
    assert((elapsed_ms + 80) / 80 == elapsed_ms / 80 + 1);
    assert((elapsed_ms + 2400) / 80 == elapsed_ms / 80 + 30);
    assert((elapsed_ms + 1200) / 80 == elapsed_ms / 80 + 15);
}

} // verus!
