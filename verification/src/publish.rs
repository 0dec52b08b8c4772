//! How a snapshot takes the place of the last one without ever losing both, and how the
//! leftovers of an owner that was interrupted are cleaned up.
use vstd::prelude::*;

use crate::outcome;
use crate::paths;
use crate::text;

verus! {

/// The copy of a snapshot that a restored VM works on, in the snapshot directory.
pub const RESTORE_WORK_SNAPSHOT: &'static str = ".restore-work";

/// The file that says that a restored VM's work was not yet published.
pub const RESTORE_WORK_ACTIVE_MARKER: &'static str = ".restore-work.active";

/// A step on the directories of a snapshot: the published one (`latest`), the next one
/// that is being made, and the previous one.
#[derive(Clone, Copy, PartialEq, Eq, Structural, Debug)]
pub enum DirOp {
    RemovePrevious,
    RemoveNext,
    /// The published snapshot becomes the previous one.
    SetAside,
    /// The next snapshot becomes the published one.
    Publish,
    /// The previous snapshot becomes the published one again.
    Recover,
}

/// The directories of a snapshot; a number stands for what a directory holds.
pub struct Dirs {
    pub latest: Option<int>,
    pub next: Option<int>,
    pub previous: Option<int>,
}

/// The directories after a step. Removing what is not there does nothing; moving what is
/// not there is not done.
pub open spec fn after(dirs: Dirs, op: DirOp) -> Dirs {
    match op {
        DirOp::RemovePrevious => Dirs { previous: None, ..dirs },
        DirOp::RemoveNext => Dirs { next: None, ..dirs },
        DirOp::SetAside => Dirs { latest: None, previous: dirs.latest, ..dirs },
        DirOp::Publish => Dirs { latest: dirs.next, next: None, ..dirs },
        DirOp::Recover => Dirs { latest: dirs.previous, previous: None, ..dirs },
    }
}

/// The directories after several steps.
pub open spec fn after_all(dirs: Dirs, ops: Seq<DirOp>) -> Dirs
    decreases ops.len(),
{
    if ops.len() == 0 {
        dirs
    } else {
        after(after_all(dirs, ops.drop_last()), ops.last())
    }
}

/// The steps that clean up after a publication that was interrupted: a published snapshot
/// that is missing is recovered from the previous one, then both others go.
pub open spec fn cleanup_ops(latest: bool, next: bool, previous: bool) -> Seq<DirOp> {
    let recover = previous && !latest;
    (if recover {
        seq![DirOp::Recover]
    } else {
        Seq::empty()
    }) + (if next {
        seq![DirOp::RemoveNext]
    } else {
        Seq::empty()
    }) + (if previous && !recover {
        seq![DirOp::RemovePrevious]
    } else {
        Seq::empty()
    })
}

/// Plans the cleanup after a publication that was interrupted, from which of the
/// directories are there.
pub fn cleanup_plan(latest: bool, next: bool, previous: bool) -> (r: Vec<DirOp>)
    ensures
        r@ == cleanup_ops(latest, next, previous),
{
    let mut r: Vec<DirOp> = Vec::new();
    let recover: bool = previous && !latest;
    if recover {
        r.push(DirOp::Recover);
    }
    if next {
        r.push(DirOp::RemoveNext);
    }
    if previous && !recover {
        r.push(DirOp::RemovePrevious);
    }
    assert(r@ =~= cleanup_ops(latest, next, previous));
    r
}

/// The steps that publish the next snapshot.
pub open spec fn publish_ops(latest: bool) -> Seq<DirOp> {
    if latest {
        seq![DirOp::RemovePrevious, DirOp::SetAside, DirOp::Publish, DirOp::RemovePrevious]
    } else {
        seq![DirOp::RemovePrevious, DirOp::Publish]
    }
}

/// Plans the publication of the next snapshot.
pub fn publish_plan(latest: bool) -> (r: Vec<DirOp>)
    ensures
        r@ == publish_ops(latest),
{
    let mut r: Vec<DirOp> = Vec::new();
    r.push(DirOp::RemovePrevious);
    if latest {
        r.push(DirOp::SetAside);
    }
    r.push(DirOp::Publish);
    if latest {
        r.push(DirOp::RemovePrevious);
    }
    assert(r@ =~= publish_ops(latest));
    r
}

/// What to do when the next snapshot could not be moved into place: put the one that was
/// set aside back.
pub fn publish_recovery(had_latest: bool, latest: bool, previous: bool) -> (r: Option<DirOp>)
    ensures
        r == (if had_latest && previous && !latest {
            Some(DirOp::Recover)
        } else {
            None
        }),
{
    if had_latest && previous && !latest {
        Some(DirOp::Recover)
    } else {
        None
    }
}

/// The directories after their cleanup.
pub open spec fn cleaned(dirs: Dirs) -> Dirs {
    after_all(dirs, cleanup_ops(dirs.latest is Some, dirs.next is Some, dirs.previous is Some))
}

/// Cleanup leaves the published snapshot, or the previous one in its place, and nothing
/// else.
pub proof fn lemma_cleanup_keeps_a_snapshot(dirs: Dirs)
    ensures
        cleaned(dirs) == (Dirs {
            latest: if dirs.latest is Some {
                dirs.latest
            } else {
                dirs.previous
            },
            next: None,
            previous: None,
        }),
{
    let ops = cleanup_ops(dirs.latest is Some, dirs.next is Some, dirs.previous is Some);
    reveal_with_fuel(after_all, 4);
    if ops.len() == 2 {
        assert(ops.drop_last() =~= seq![ops[0]]);
    }
    if ops.len() >= 1 {
        assert(seq![ops[0]].drop_last() =~= Seq::<DirOp>::empty());
        assert(ops.len() == 1 ==> ops.drop_last() =~= Seq::<DirOp>::empty());
    }
}

/// Publishing replaces the published snapshot by the next one and leaves no other
/// directory behind.
pub proof fn lemma_publish_replaces_latest(dirs: Dirs)
    requires
        dirs.next is Some,
    ensures
        after_all(dirs, publish_ops(dirs.latest is Some)) == (Dirs {
            latest: dirs.next,
            next: None,
            previous: None,
        }),
{
    let ops = publish_ops(dirs.latest is Some);
    lemma_publish_prefix(dirs, ops.len() as int);
    assert(ops.take(ops.len() as int) =~= ops);
}

proof fn lemma_publish_prefix(dirs: Dirs, k: int)
    requires
        0 <= k <= publish_ops(dirs.latest is Some).len(),
    ensures
        after_all(dirs, publish_ops(dirs.latest is Some).take(k)) == (if k == 0 {
            dirs
        } else if k == 1 {
            Dirs { previous: None, ..dirs }
        } else if dirs.latest is Some {
            if k == 2 {
                Dirs { latest: None, previous: dirs.latest, ..dirs }
            } else if k == 3 {
                Dirs { latest: dirs.next, next: None, previous: dirs.latest }
            } else {
                Dirs { latest: dirs.next, next: None, previous: None }
            }
        } else {
            Dirs { latest: dirs.next, next: None, previous: None }
        }),
    decreases k,
{
    let ops = publish_ops(dirs.latest is Some);
    if k > 0 {
        lemma_publish_prefix(dirs, k - 1);
        assert(ops.take(k).drop_last() =~= ops.take(k - 1));
        assert(ops.take(k).last() == ops[k - 1]);
    }
}

/// A publication can be interrupted after any of its steps: once the directories are
/// cleaned up, the published snapshot is the old one or the new one. Publishing starts
/// from directories without a previous one, as cleanup leaves them.
pub proof fn lemma_interrupted_publish_loses_nothing(dirs: Dirs, k: int)
    requires
        0 <= k <= publish_ops(dirs.latest is Some).len(),
        dirs.next is Some,
        dirs.previous is None,
    ensures
        ({
            let left = cleaned(after_all(dirs, publish_ops(dirs.latest is Some).take(k)));
            &&& left.latest == dirs.latest || left.latest == dirs.next
            &&& dirs.latest is Some ==> left.latest is Some
            &&& left.next is None && left.previous is None
        }),
{
    lemma_publish_prefix(dirs, k);
    lemma_cleanup_keeps_a_snapshot(after_all(dirs, publish_ops(dirs.latest is Some).take(k)));
}

/// When the next snapshot cannot be moved into place, the one that was set aside is
/// published again.
pub proof fn lemma_failed_publish_recovers(dirs: Dirs)
    requires
        dirs.latest is Some,
    ensures
        ({
            let aside = after_all(dirs, publish_ops(true).take(2));
            &&& aside.latest is None && aside.previous is Some
            &&& after(aside, DirOp::Recover).latest == dirs.latest
        }),
{
    lemma_publish_prefix(dirs, 2);
}

// ---------------------------------------------------------------------------
// Paths
// ---------------------------------------------------------------------------

/// Why a path has no sibling directory.
#[derive(Clone, Copy, PartialEq, Eq, Structural, Debug)]
pub enum SiblingError {
    NoParent,
    NoName,
}

/// The hidden directory beside a path, named after it.
pub open spec fn sibling_of(path: Seq<char>, suffix: Seq<char>) -> Result<
    Seq<char>,
    SiblingError,
> {
    match paths::parent_of(path) {
        None => Err(SiblingError::NoParent),
        Some(dir) => match paths::name_of(path) {
            None => Err(SiblingError::NoName),
            Some(name) => Ok(paths::joined(dir, "."@ + name + "."@ + suffix)),
        },
    }
}

/// The hidden directory beside a path, named after it.
pub fn sibling_dot_path(path: &str, suffix: &str) -> (r: Result<String, SiblingError>)
    ensures
        match r {
            Ok(p) => sibling_of(path@, suffix@) == Ok::<Seq<char>, SiblingError>(p@),
            Err(e) => sibling_of(path@, suffix@) == Err::<Seq<char>, SiblingError>(e),
        },
{
    let dir: String = match paths::parent(path) {
        None => return Err(SiblingError::NoParent),
        Some(dir) => dir,
    };
    let name: String = match paths::file_name(path) {
        None => return Err(SiblingError::NoName),
        Some(name) => name,
    };
    let mut sibling: String = ".".to_owned();
    sibling.append(name.as_str());
    sibling.append(".");
    sibling.append(suffix);
    Ok(paths::join(dir.as_str(), sibling.as_str()))
}

/// Where the next snapshot is made.
pub fn snapshot_publish_temp(snapshot_path: &str) -> (r: Result<String, SiblingError>)
    ensures
        match r {
            Ok(p) => sibling_of(snapshot_path@, "next"@) == Ok::<Seq<char>, SiblingError>(p@),
            Err(e) => sibling_of(snapshot_path@, "next"@) == Err::<Seq<char>, SiblingError>(e),
        },
{
    sibling_dot_path(snapshot_path, "next")
}

/// Where the previous snapshot is set aside.
pub fn snapshot_publish_previous(snapshot_path: &str) -> (r: Result<String, SiblingError>)
    ensures
        match r {
            Ok(p) => sibling_of(snapshot_path@, "previous"@) == Ok::<Seq<char>, SiblingError>(p@),
            Err(e) => sibling_of(snapshot_path@, "previous"@) == Err::<Seq<char>, SiblingError>(e),
        },
{
    sibling_dot_path(snapshot_path, "previous")
}

/// Where a restored VM works.
pub fn restore_work_snapshot(layout: &paths::Layout) -> (p: String)
    ensures
        p@ == paths::joined(layout.snapshot_dir@, RESTORE_WORK_SNAPSHOT@),
{
    paths::join(layout.snapshot_dir.as_str(), RESTORE_WORK_SNAPSHOT)
}

/// The marker of a restored VM's work.
pub fn restore_work_active_marker(layout: &paths::Layout) -> (p: String)
    ensures
        p@ == paths::joined(layout.snapshot_dir@, RESTORE_WORK_ACTIVE_MARKER@),
{
    paths::join(layout.snapshot_dir.as_str(), RESTORE_WORK_ACTIVE_MARKER)
}

// ---------------------------------------------------------------------------
// The work of a restored VM
// ---------------------------------------------------------------------------

/// Whether a restored VM's work was not yet published: it is there, and so is its marker.
pub fn restore_work_is_active(work: bool, marker: bool) -> (r: bool)
    ensures
        r == (work && marker),
{
    work && marker
}

/// A previous restored VM's work was not published, and is not thrown away.
#[derive(Debug, PartialEq, Eq)]
pub struct ActiveRestoreWork {
    pub work: String,
    pub generation: String,
    pub instance: String,
}

impl ActiveRestoreWork {
    /// The message shown to the user.
    pub open spec fn text(self) -> Seq<char> {
        "a previous restored VM did not publish a final snapshot; refusing to delete recoverable state at "@
            + self.work@ + " ("@ + self.generation@
            + ")\nrecovery: preserve the directory for inspection, or run lnx --instance "@
            + self.instance@ + " snapshots clear to explicitly discard it"@
    }

    /// The message shown to the user.
    pub fn message(&self) -> (m: String)
        ensures
            m@ == self.text(),
    {
        let mut m: String =
            "a previous restored VM did not publish a final snapshot; refusing to delete recoverable state at ".to_owned();
        m.append(self.work.as_str());
        m.append(" (");
        m.append(self.generation.as_str());
        m.append(")\nrecovery: preserve the directory for inspection, or run lnx --instance ");
        m.append(self.instance.as_str());
        m.append(" snapshots clear to explicitly discard it");
        m
    }
}

/// What the marker says about the work: its text without white space around it, or that
/// the generation is unknown.
pub open spec fn marker_generation(marker_text: Option<Seq<char>>) -> Seq<char> {
    match marker_text {
        Some(raw) => if text::trimmed(raw).len() == 0 {
            "generation unknown"@
        } else {
            text::trimmed(raw)
        },
        None => "generation unknown"@,
    }
}

/// The text of a marker.
pub fn marker_content(generation_id: &str) -> (s: String)
    ensures
        s@ == "generation_id="@ + generation_id@ + "\n"@,
{
    let mut s: String = "generation_id=".to_owned();
    s.append(generation_id);
    s.append("\n");
    s
}

/// Refuses to go on while a restored VM's work is unpublished. `marker_text` is what the
/// marker says, where it can be read.
pub fn refuse_active_restore_work(
    layout: &paths::Layout,
    work: bool,
    marker: bool,
    marker_text: Option<&str>,
) -> (r: Result<(), ActiveRestoreWork>)
    ensures
        r is Err <==> work && marker,
        r matches Err(e) ==> {
            &&& e.work@ == paths::joined(layout.snapshot_dir@, RESTORE_WORK_SNAPSHOT@)
            &&& e.instance@ == layout.instance@
            &&& e.generation@ == marker_generation(
                match marker_text {
                    Some(raw) => Some(raw@),
                    None => None,
                },
            )
        },
{
    if !restore_work_is_active(work, marker) {
        return Ok(());
    }
    let generation: String = match marker_text {
        Some(raw) => {
            let word = text::trim(raw);
            if word.is_empty() {
                "generation unknown".to_owned()
            } else {
                word.to_owned()
            }
        },
        None => "generation unknown".to_owned(),
    };
    Err(
        ActiveRestoreWork {
            work: restore_work_snapshot(layout),
            generation,
            instance: layout.instance.clone(),
        },
    )
}

/// What cleaning up before a start removes.
#[derive(Debug, PartialEq, Eq)]
pub struct RuntimeCleanup {
    /// A marker that stands for no work.
    pub marker: bool,
    /// Work that was published, or that nothing marks.
    pub work: bool,
    /// The steps on the directories of the published snapshot.
    pub dirs: Vec<DirOp>,
}

/// Plans the cleanup before a start, unless a restored VM's work is unpublished.
pub fn cleanup_snapshot_runtime_state(
    layout: &paths::Layout,
    work: bool,
    marker: bool,
    marker_text: Option<&str>,
    latest: bool,
    next: bool,
    previous: bool,
) -> (r: Result<RuntimeCleanup, ActiveRestoreWork>)
    ensures
        r is Err <==> work && marker,
        r matches Err(e) ==> {
            &&& e.work@ == paths::joined(layout.snapshot_dir@, RESTORE_WORK_SNAPSHOT@)
            &&& e.instance@ == layout.instance@
            &&& e.generation@ == marker_generation(
                match marker_text {
                    Some(raw) => Some(raw@),
                    None => None,
                },
            )
        },
        r matches Ok(plan) ==> {
            &&& plan.marker == marker
            &&& plan.work == work
            &&& plan.dirs@ == cleanup_ops(latest, next, previous)
        },
{
    match refuse_active_restore_work(layout, work, marker, marker_text) {
        Err(e) => Err(e),
        Ok(()) => Ok(RuntimeCleanup { marker, work, dirs: cleanup_plan(latest, next, previous) }),
    }
}

/// What follows a final snapshot for the work of a restored VM.
#[derive(Clone, Copy, PartialEq, Eq, Structural, Debug)]
pub enum AfterFinalSnapshot {
    /// The snapshot failed: the work stays marked, so that it can be recovered.
    KeepMarker,
    /// The work is published: take its marker away.
    ClearMarker,
    /// There was no work.
    Nothing,
}

/// Decides what follows a final snapshot for the work of a restored VM.
pub fn finish_restore_work_after_final_snapshot(
    restored_from_work: bool,
    snapshot_succeeded: bool,
) -> (r: AfterFinalSnapshot)
    ensures
        r == (if !snapshot_succeeded {
            AfterFinalSnapshot::KeepMarker
        } else if restored_from_work {
            AfterFinalSnapshot::ClearMarker
        } else {
            AfterFinalSnapshot::Nothing
        }),
{
    if !snapshot_succeeded {
        AfterFinalSnapshot::KeepMarker
    } else if restored_from_work {
        AfterFinalSnapshot::ClearMarker
    } else {
        AfterFinalSnapshot::Nothing
    }
}

/// Why a command cannot use the instance as it is.
#[derive(Debug, PartialEq, Eq)]
pub enum CommandBlocked {
    RestoreWork(ActiveRestoreWork),
    Outcome(outcome::OutcomeError),
}

/// Checks that nothing of an earlier run keeps a command from using the instance. A live
/// owner answers for itself; the answer says whether there is one. Otherwise no restored
/// VM's work may be unpublished, and the last final snapshot must not have failed.
pub fn validate_restore_work_for_command(
    layout: &paths::Layout,
    owner_is_live: bool,
    work: bool,
    marker: bool,
    marker_text: Option<&str>,
    recorded: &Option<outcome::FinalSnapshotOutcome>,
) -> (r: Result<bool, CommandBlocked>)
    ensures
        owner_is_live ==> r == Ok::<bool, CommandBlocked>(true),
        !owner_is_live ==> match r {
            Ok(live) => !live && !(work && marker) && outcome::outcome_passes(
                None,
                outcome::outcome_view(*recorded),
            ),
            Err(CommandBlocked::RestoreWork(e)) => work && marker && e.instance@ == layout.instance@
                && e.work@ == paths::joined(layout.snapshot_dir@, RESTORE_WORK_SNAPSHOT@)
                && e.generation@ == marker_generation(text::opt_view(marker_text)),
            Err(CommandBlocked::Outcome(e)) => !(work && marker) && !outcome::outcome_passes(
                None,
                outcome::outcome_view(*recorded),
            ) && outcome::is_outcome_error(
                layout.instance@,
                None,
                outcome::outcome_view(*recorded),
                e,
            ),
        },
{
    if owner_is_live {
        return Ok(true);
    }
    match refuse_active_restore_work(layout, work, marker, marker_text) {
        Err(e) => return Err(CommandBlocked::RestoreWork(e)),
        Ok(()) => {},
    }
    match outcome::validate_final_snapshot_outcome(layout.instance.as_str(), None, recorded) {
        Err(e) => Err(CommandBlocked::Outcome(e)),
        Ok(()) => Ok(false),
    }
}

// ---------------------------------------------------------------------------
// Laws of names
// ---------------------------------------------------------------------------

/// A snapshot's sibling lies in the same directory, under its name with a dot in front
/// and the suffix behind; there is one exactly where the path has a directory and a name.
pub proof fn lemma_sibling(path: Seq<char>, suffix: Seq<char>)
    requires
        !suffix.contains('/'),
        suffix.len() > 0,
    ensures
        sibling_of(path, suffix) is Ok <==> paths::parent_of(path) is Some && paths::name_of(path)
            is Some,
        sibling_of(path, suffix) matches Ok(s) ==> paths::components(s)
            == paths::components(path).drop_last().push(
            seq!['.'] + paths::name_of(path)->Some_0 + seq!['.'] + suffix,
        ),
        paths::parent_of(path) is None ==> sibling_of(path, suffix) == Err::<Seq<char>, _>(
            SiblingError::NoParent,
        ),
        paths::parent_of(path) is Some && paths::name_of(path) is None ==> sibling_of(path, suffix)
            == Err::<Seq<char>, _>(SiblingError::NoName),
{
    reveal_strlit(".");
    assert("."@ =~= seq!['.']);
    if let Some(dir) = paths::parent_of(path) {
        if let Some(name) = paths::name_of(path) {
            let full = "."@ + name + "."@ + suffix;
            paths::lemma_components_are_parts(path);
            paths::lemma_parent_and_name(path);
            let parts = paths::components(path);
            assert(parts[parts.len() - 1] == name);
            assert(!full.contains('/')) by {
                if full.contains('/') {
                    let k = choose|k: int| 0 <= k < full.len() && full[k] == '/';
                    if 1 <= k < 1 + name.len() {
                        assert(name[k - 1] == '/');
                    } else if k >= name.len() + 2 {
                        assert(suffix[k - name.len() - 2] == '/');
                    }
                }
            }
            assert(full.len() >= 4);
            reveal_strlit("..");
            paths::lemma_name_in_directory(dir, full);
        }
    }
}

/// The generation that a marker was written for is read from it: what is shown is the
/// line itself, and a marker that is missing or holds nothing is of no known generation.
pub proof fn lemma_marker_names_its_generation(generation_id: Seq<char>, blank: Seq<char>)
    requires
        generation_id.len() > 0,
        !text::is_space(generation_id.last()),
        forall|i: int| 0 <= i < blank.len() ==> text::is_space(#[trigger] blank[i]),
    ensures
        marker_generation(Some("generation_id="@ + generation_id + "\n"@)) == "generation_id="@
            + generation_id,
        marker_generation(Some(blank)) == "generation unknown"@,
        marker_generation(None) == "generation unknown"@,
{
    reveal_strlit("generation_id=");
    reveal_strlit("\n");
    let line = "generation_id="@ + generation_id;
    let whole = line + "\n"@;
    assert(whole.last() == '\n');
    assert(whole.drop_last() =~= line);
    assert(!text::is_space(whole[0]));
    assert(text::trimmed_start(whole) == whole);
    assert(line.last() == generation_id.last());
    assert(text::trimmed_end(line) == line);
    assert(text::trimmed_end(whole) == line);
    text::lemma_trimmed(blank);
    if text::trimmed(blank).len() > 0 {
        let (i, j) = choose|i: int, j: int|
            0 <= i <= j <= blank.len() && text::trimmed(blank) == #[trigger] blank.subrange(i, j)
                && (forall|k: int|
                0 <= k < i || j <= k < blank.len() ==> text::is_space(#[trigger] blank[k]));
        assert(text::trimmed(blank)[0] == blank[i]);
    }
}

} // verus!
