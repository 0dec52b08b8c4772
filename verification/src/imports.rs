//! Sandboxes that a server takes in: what a request asks for, when it is refused, and what
//! an import puts where.
use vstd::prelude::*;

use crate::cas;
use crate::cas::CasManifestFile;
use crate::cas::CasUploadManifest;
use crate::cas::ManifestError;
use crate::digest;
use crate::instances;
use crate::paths;
use crate::text;

verus! {

// ---------------------------------------------------------------------------
// Headers
// ---------------------------------------------------------------------------

/// What a request has under the name of a header.
#[derive(Debug, PartialEq, Eq)]
pub enum Header {
    Missing,
    Text(String),
    /// It is there, and is no text.
    NotText,
}

/// The headers of a request that say how a sandbox is imported.
#[derive(Debug, PartialEq, Eq)]
pub struct ImportHeaders {
    pub source_instance: Header,
    pub command_json: Header,
    pub replace: Header,
    pub start: Header,
    pub idle_ttl_ms: Header,
}

/// How a sandbox is imported.
#[derive(Debug, PartialEq, Eq)]
pub struct ImportOptions {
    pub source_instance: String,
    pub replace: bool,
    pub start: bool,
    pub idle_ttl_ms: Option<u64>,
    pub command: Vec<String>,
}

/// How a sandbox is imported, as plain values.
pub struct OptionsView {
    pub source_instance: Seq<char>,
    pub replace: bool,
    pub start: bool,
    pub idle_ttl_ms: Option<u64>,
    pub command: Seq<Seq<char>>,
}

impl ImportOptions {
    /// The options, as plain values.
    pub open spec fn view(self) -> OptionsView {
        OptionsView {
            source_instance: self.source_instance@,
            replace: self.replace,
            start: self.start,
            idle_ttl_ms: self.idle_ttl_ms,
            command: text::views(self.command@),
        }
    }
}

/// What is wrong with the headers of a request.
#[derive(Debug, PartialEq, Eq)]
pub enum HeaderError {
    NotText { name: String },
    NoSource,
    BadCommand { value: String },
    BadIdleTtl,
}

/// What is wrong with the headers of a request, as plain values.
pub enum HeaderProblem {
    NotText(Seq<char>),
    NoSource,
    BadCommand(Seq<char>),
    BadIdleTtl,
}

impl HeaderError {
    /// The error, as plain values.
    pub open spec fn view(self) -> HeaderProblem {
        match self {
            HeaderError::NotText { name } => HeaderProblem::NotText(name@),
            HeaderError::NoSource => HeaderProblem::NoSource,
            HeaderError::BadCommand { value } => HeaderProblem::BadCommand(value@),
            HeaderError::BadIdleTtl => HeaderProblem::BadIdleTtl,
        }
    }

    /// The message shown to the user.
    pub fn message(&self) -> (m: String)
        ensures
            m@ == (match *self {
                HeaderError::NotText { name } => name@ + " is not valid UTF-8"@,
                HeaderError::NoSource => "missing x-lnx-source-instance header"@,
                HeaderError::BadCommand { value } => "parse x-lnx-command-json: "@ + value@,
                HeaderError::BadIdleTtl => "parse x-lnx-idle-ttl-ms"@,
            }),
    {
        match self {
            HeaderError::NotText { name } => {
                let mut m: String = name.clone();
                m.append(" is not valid UTF-8");
                m
            },
            HeaderError::NoSource => "missing x-lnx-source-instance header".to_owned(),
            HeaderError::BadCommand { value } => {
                let mut m: String = "parse x-lnx-command-json: ".to_owned();
                m.append(value.as_str());
                m
            },
            HeaderError::BadIdleTtl => "parse x-lnx-idle-ttl-ms".to_owned(),
        }
    }
}

/// Whether the text of a header means yes.
pub open spec fn means_yes(s: Seq<char>) -> bool {
    s == "1"@ || s == "true"@ || s == "yes"@
}

/// Whether a header means yes.
pub fn header_bool(header: &Header, name: &str) -> (r: Result<bool, HeaderError>)
    ensures
        match *header {
            Header::Missing => r == Ok::<bool, HeaderError>(false),
            Header::Text(s) => r == Ok::<bool, HeaderError>(means_yes(s@)),
            Header::NotText => r matches Err(e) && e@ == HeaderProblem::NotText(name@),
        },
{
    match header {
        Header::Missing => Ok(false),
        Header::Text(s) => {
            let s: &str = s.as_str();
            Ok(text::same(s, "1") || text::same(s, "true") || text::same(s, "yes"))
        },
        Header::NotText => Err(HeaderError::NotText { name: name.to_owned() }),
    }
}

/// The list of texts that a piece of JSON holds, if it holds one.
pub uninterp spec fn json_texts(s: Seq<char>) -> Option<Seq<Seq<char>>>;

/// Lists of texts, as plain values.
pub open spec fn opt_views(v: Option<Vec<String>>) -> Option<Seq<Seq<char>>> {
    match v {
        Some(v) => Some(text::views(v@)),
        None => None,
    }
}

/// Reads a list of texts from JSON with `serde_json::from_str`. What it finds depends on
/// the text alone; which JSON is such a list is left to that function.
#[verifier::external_body]
fn parse_json_texts(s: &str) -> (r: Option<Vec<String>>)
    ensures
        opt_views(r) == json_texts(s@),
{
    serde_json::from_str::<Vec<String>>(s).ok()
}

/// The text of a header that is there and not empty.
pub open spec fn given(header: Header) -> Option<Seq<char>> {
    match header {
        Header::Text(s) => if s@.len() == 0 {
            None
        } else {
            Some(s@)
        },
        _ => None,
    }
}

/// What the headers of a request ask for. `command` is the list of texts that the header
/// for the command holds, if it holds one.
pub open spec fn options_in(headers: ImportHeaders, command: Option<Seq<Seq<char>>>) -> Result<
    OptionsView,
    HeaderProblem,
> {
    if headers.source_instance is NotText {
        Err(HeaderProblem::NotText("x-lnx-source-instance"@))
    } else if headers.source_instance is Missing {
        Err(HeaderProblem::NoSource)
    } else if headers.command_json is NotText {
        Err(HeaderProblem::NotText("x-lnx-command-json"@))
    } else if given(headers.command_json) is Some && command is None {
        Err(HeaderProblem::BadCommand(given(headers.command_json)->Some_0))
    } else if headers.replace is NotText {
        Err(HeaderProblem::NotText("x-lnx-replace"@))
    } else if headers.start is NotText {
        Err(HeaderProblem::NotText("x-lnx-start"@))
    } else if headers.idle_ttl_ms is NotText {
        Err(HeaderProblem::NotText("x-lnx-idle-ttl-ms"@))
    } else if given(headers.idle_ttl_ms) is Some && text::parsed(
        given(headers.idle_ttl_ms)->Some_0,
        u64::MAX as nat,
    ) is None {
        Err(HeaderProblem::BadIdleTtl)
    } else {
        Ok(
            OptionsView {
                source_instance: headers.source_instance->Text_0@,
                replace: headers.replace matches Header::Text(s) && means_yes(s@),
                start: headers.start matches Header::Text(s) && means_yes(s@),
                idle_ttl_ms: match given(headers.idle_ttl_ms) {
                    Some(s) => Some(text::parsed(s, u64::MAX as nat)->Some_0 as u64),
                    None => None,
                },
                command: if given(headers.command_json) is Some {
                    command->Some_0
                } else {
                    Seq::empty()
                },
            },
        )
    }
}

/// Reads what the headers of a request ask for. `command` is the list of texts that the
/// header for the command holds, if it holds one.
pub fn import_options_with(headers: &ImportHeaders, command: Option<Vec<String>>) -> (r: Result<
    ImportOptions,
    HeaderError,
>)
    ensures
        match options_in(*headers, opt_views(command)) {
            Ok(o) => r matches Ok(x) && x@ == o,
            Err(p) => r matches Err(e) && e@ == p,
        },
{
    let source_instance: String = match &headers.source_instance {
        Header::NotText => {
            return Err(HeaderError::NotText { name: "x-lnx-source-instance".to_owned() });
        },
        Header::Missing => {
            return Err(HeaderError::NoSource);
        },
        Header::Text(s) => s.clone(),
    };
    let command: Vec<String> = match &headers.command_json {
        Header::NotText => {
            return Err(HeaderError::NotText { name: "x-lnx-command-json".to_owned() });
        },
        Header::Missing => Vec::new(),
        Header::Text(s) => if s.as_str().is_empty() {
            Vec::new()
        } else {
            match command {
                Some(v) => v,
                None => {
                    return Err(HeaderError::BadCommand { value: s.clone() });
                },
            }
        },
    };
    let replace: bool = match header_bool(&headers.replace, "x-lnx-replace") {
        Ok(yes) => yes,
        Err(e) => {
            return Err(e);
        },
    };
    let start: bool = match header_bool(&headers.start, "x-lnx-start") {
        Ok(yes) => yes,
        Err(e) => {
            return Err(e);
        },
    };
    let idle_ttl_ms: Option<u64> = match &headers.idle_ttl_ms {
        Header::NotText => {
            return Err(HeaderError::NotText { name: "x-lnx-idle-ttl-ms".to_owned() });
        },
        Header::Missing => None,
        Header::Text(s) => if s.as_str().is_empty() {
            None
        } else {
            match text::parse(s.as_str(), u64::MAX) {
                Some(n) => Some(n),
                None => {
                    return Err(HeaderError::BadIdleTtl);
                },
            }
        },
    };
    let r: ImportOptions = ImportOptions { source_instance, replace, start, idle_ttl_ms, command };
    assert(r@.command =~= (if given(headers.command_json) is Some {
        text::views(command@)
    } else {
        Seq::empty()
    }));
    Ok(r)
}

/// Reads what the headers of a request ask for.
pub fn import_options(headers: &ImportHeaders) -> (r: Result<ImportOptions, HeaderError>)
    ensures
        match options_in(
            *headers,
            match given(headers.command_json) {
                Some(s) => json_texts(s),
                None => None,
            },
        ) {
            Ok(o) => r matches Ok(x) && x@ == o,
            Err(p) => r matches Err(e) && e@ == p,
        },
{
    let command: Option<Vec<String>> = match &headers.command_json {
        Header::Text(s) => if s.as_str().is_empty() {
            None
        } else {
            parse_json_texts(s.as_str())
        },
        _ => None,
    };
    import_options_with(headers, command)
}

/// Whether the body of a request is a sparse bundle, by its content type.
pub open spec fn is_sparse_bundle_type(content_type: Seq<char>) -> bool {
    text::trimmed(text::split_on(content_type, ';')[0]) == "application/x-lnx-sparse-bundle"@
}

/// Whether the body of a request is a sparse bundle, by its content type. Any other body
/// is an archive.
pub fn content_is_sparse_bundle(content_type: &str) -> (r: bool)
    ensures
        r == is_sparse_bundle_type(content_type@),
{
    let parts: Vec<String> = text::split(content_type, ';');
    proof {
        text::lemma_split_is_nonempty(content_type@, ';');
    }
    assert(parts@[0]@ == text::split_on(content_type@, ';')[0]);
    text::same(text::trim(parts[0].as_str()), "application/x-lnx-sparse-bundle")
}

/// Whether uploaded blocks are compressed, by the encoding that the upload names.
pub fn encoding_is_zstd(encoding: &str) -> (r: bool)
    ensures
        r == (instances::lower(encoding@) == "zstd"@),
{
    text::same(instances::to_lower(encoding).as_str(), "zstd")
}

// ---------------------------------------------------------------------------
// Refusals
// ---------------------------------------------------------------------------

/// Why a sandbox is not taken in.
#[derive(Debug, PartialEq, Eq)]
pub enum ImportRefusal {
    Version { version: u32 },
    Running { instance: String },
    Starting { instance: String },
    Exists { instance: String },
    Manifest(ManifestError),
    /// The sandbox has no disk.
    NoRootfs { instance: String },
    /// The sandbox has a snapshot with no record of how it was launched.
    NoLaunch { path: String },
    /// The snapshot of the sandbox was launched otherwise than this server would.
    OtherShares { reason: String, path: String },
    /// A block of a file is not there.
    NoBlock { sha256: String, path: String },
}

impl ImportRefusal {
    /// The message shown to the user.
    pub open spec fn text(self) -> Seq<char> {
        match self {
            ImportRefusal::Version { version } => "unsupported CAS upload manifest version: "@
                + text::dec(version as nat),
            ImportRefusal::Running { instance } => "target instance is running: "@ + instance@,
            ImportRefusal::Starting { instance } => "target instance is starting: "@ + instance@,
            ImportRefusal::Exists { instance } => "target instance already exists: "@ + instance@
                + " (use --replace)"@,
            ImportRefusal::Manifest(e) => e.text(),
            ImportRefusal::NoRootfs { instance } => "sandbox bundle is missing instances/"@
                + instance@ + "/rootfs.ext4"@,
            ImportRefusal::NoLaunch { path } =>
                "snapshot cannot be restored on this server because its launch metadata is missing; push a fresh checkpoint created for this server or remove the snapshot before pushing ("@
                + path@ + ")"@,
            ImportRefusal::OtherShares { reason, path } =>
                "snapshot cannot be restored on this server because its host-share/network settings differ ("@
                + reason@
                + "); push a fresh checkpoint created for this server or remove the snapshot before pushing ("@
                + path@ + ")"@,
            ImportRefusal::NoBlock { sha256, path } => "missing CAS block "@ + sha256@ + " for "@
                + path@,
        }
    }

    /// The message shown to the user.
    pub fn message(&self) -> (m: String)
        ensures
            m@ == self.text(),
    {
        match self {
            ImportRefusal::Version { version } => {
                let mut m: String = "unsupported CAS upload manifest version: ".to_owned();
                text::push_dec(&mut m, *version as u128);
                m
            },
            ImportRefusal::Running { instance } => {
                let mut m: String = "target instance is running: ".to_owned();
                m.append(instance.as_str());
                m
            },
            ImportRefusal::Starting { instance } => {
                let mut m: String = "target instance is starting: ".to_owned();
                m.append(instance.as_str());
                m
            },
            ImportRefusal::Exists { instance } => {
                let mut m: String = "target instance already exists: ".to_owned();
                m.append(instance.as_str());
                m.append(" (use --replace)");
                m
            },
            ImportRefusal::Manifest(e) => e.message(),
            ImportRefusal::NoRootfs { instance } => {
                let mut m: String = "sandbox bundle is missing instances/".to_owned();
                m.append(instance.as_str());
                m.append("/rootfs.ext4");
                m
            },
            ImportRefusal::NoLaunch { path } => {
                let mut m: String =
                    "snapshot cannot be restored on this server because its launch metadata is missing; push a fresh checkpoint created for this server or remove the snapshot before pushing (".to_owned();
                m.append(path.as_str());
                m.append(")");
                m
            },
            ImportRefusal::OtherShares { reason, path } => {
                let mut m: String =
                    "snapshot cannot be restored on this server because its host-share/network settings differ (".to_owned();
                m.append(reason.as_str());
                m.append(
                    "); push a fresh checkpoint created for this server or remove the snapshot before pushing (",
                );
                m.append(path.as_str());
                m.append(")");
                m
            },
            ImportRefusal::NoBlock { sha256, path } => cas::missing_block_message(
                sha256.as_str(),
                path.as_str(),
            ),
        }
    }
}

/// What is seen of the instance that a sandbox is imported as.
#[derive(Clone, Copy, PartialEq, Eq, Structural, Debug)]
pub struct TargetSeen {
    /// Whether its broker answers.
    pub broker_answers: bool,
    /// Whether there is a lease for an owner.
    pub lock_exists: bool,
    /// Whether it has a disk.
    pub has_rootfs: bool,
    /// Whether it has a directory for snapshots.
    pub has_snapshots: bool,
}

/// Why the instance cannot be imported over, if it cannot.
pub open spec fn is_target_refusal(
    instance: Seq<char>,
    seen: TargetSeen,
    replace: bool,
    r: Option<ImportRefusal>,
) -> bool {
    if seen.broker_answers {
        r matches Some(ImportRefusal::Running { instance: i }) && i@ == instance
    } else if seen.lock_exists {
        r matches Some(ImportRefusal::Starting { instance: i }) && i@ == instance
    } else if (seen.has_rootfs || seen.has_snapshots) && !replace {
        r matches Some(ImportRefusal::Exists { instance: i }) && i@ == instance
    } else {
        r is None
    }
}

/// Checks that an instance is not in use.
pub fn reject_running_instance(instance: &str, broker_answers: bool, lock_exists: bool) -> (r:
    Option<ImportRefusal>)
    ensures
        if broker_answers {
            r matches Some(ImportRefusal::Running { instance: i }) && i@ == instance@
        } else if lock_exists {
            r matches Some(ImportRefusal::Starting { instance: i }) && i@ == instance@
        } else {
            r is None
        },
{
    if broker_answers {
        Some(ImportRefusal::Running { instance: instance.to_owned() })
    } else if lock_exists {
        Some(ImportRefusal::Starting { instance: instance.to_owned() })
    } else {
        None
    }
}

/// Checks that a sandbox can be imported as an instance: it is not in use, and is not
/// there, or may be replaced.
pub fn check_target(instance: &str, seen: TargetSeen, replace: bool) -> (r: Option<ImportRefusal>)
    ensures
        is_target_refusal(instance@, seen, replace, r),
{
    if let Some(e) = reject_running_instance(instance, seen.broker_answers, seen.lock_exists) {
        return Some(e);
    }
    if (seen.has_rootfs || seen.has_snapshots) && !replace {
        return Some(ImportRefusal::Exists { instance: instance.to_owned() });
    }
    None
}

/// Nothing is imported over an instance that is in use, whatever was asked for; and an
/// instance is replaced only where that was asked for.
pub proof fn lemma_import_spares_instances_in_use(
    instance: Seq<char>,
    seen: TargetSeen,
    replace: bool,
)
    requires
        is_target_refusal(instance, seen, replace, None),
    ensures
        !seen.broker_answers,
        !seen.lock_exists,
        seen.has_rootfs || seen.has_snapshots ==> replace,
{
}

/// Why a manifest is refused, if it is.
pub open spec fn is_manifest_refusal(manifest: CasUploadManifest, r: Option<ImportRefusal>) -> bool {
    match cas::manifest_problem(manifest.source_instance@, cas::file_views(manifest.files@)) {
        Some(p) => r matches Some(ImportRefusal::Manifest(e)) && e@ == p,
        None => r is None,
    }
}

/// Why an upload is not begun, if it is not: the version of the manifest, the instance and
/// the manifest are checked, in this order.
pub open spec fn is_upload_refusal(
    target: Seq<char>,
    manifest: CasUploadManifest,
    seen: TargetSeen,
    r: Option<ImportRefusal>,
) -> bool {
    if manifest.version != cas::CAS_MANIFEST_VERSION {
        r matches Some(ImportRefusal::Version { version }) && version == manifest.version
    } else if !is_target_refusal(target, seen, manifest.replace, None) {
        is_target_refusal(target, seen, manifest.replace, r)
    } else {
        is_manifest_refusal(manifest, r)
    }
}

/// Checks that an upload can be begun.
pub fn check_upload(target: &str, manifest: &CasUploadManifest, seen: TargetSeen) -> (r: Option<
    ImportRefusal,
>)
    ensures
        is_upload_refusal(target@, *manifest, seen, r),
{
    if manifest.version != cas::CAS_MANIFEST_VERSION {
        return Some(ImportRefusal::Version { version: manifest.version });
    }
    if let Some(e) = check_target(target, seen, manifest.replace) {
        return Some(e);
    }
    match cas::validate_cas_manifest(manifest) {
        Ok(()) => None,
        Err(e) => Some(ImportRefusal::Manifest(e)),
    }
}

/// Checks that an upload can be put in place, as far as the instance and the manifest
/// go.
pub fn check_commit(target: &str, manifest: &CasUploadManifest, seen: TargetSeen) -> (r: Option<
    ImportRefusal,
>)
    ensures
        if is_target_refusal(target@, seen, manifest.replace, None) {
            is_manifest_refusal(*manifest, r)
        } else {
            is_target_refusal(target@, seen, manifest.replace, r)
        },
{
    if let Some(e) = check_target(target, seen, manifest.replace) {
        return Some(e);
    }
    match cas::validate_cas_manifest(manifest) {
        Ok(()) => None,
        Err(e) => Some(ImportRefusal::Manifest(e)),
    }
}

/// A block that a file needs.
#[derive(Debug, PartialEq, Eq)]
pub struct RequiredBlock {
    pub sha256: String,
    pub path: String,
}

/// Blocks that files need, as plain values: the digest of each, and the path of the file.
pub open spec fn required_views(blocks: Seq<RequiredBlock>) -> Seq<(Seq<char>, Seq<char>)> {
    Seq::new(blocks.len(), |i: int| (blocks[i].sha256@, blocks[i].path@))
}

/// The blocks that a file needs from the store: all but full blocks of zeros.
pub open spec fn required_in_file(
    blocks: Seq<cas::BlockView>,
    path: Seq<char>,
    zero_hash: Seq<char>,
) -> Seq<(Seq<char>, Seq<char>)>
    decreases blocks.len(),
{
    if blocks.len() == 0 {
        Seq::empty()
    } else {
        let rest = required_in_file(blocks.drop_last(), path, zero_hash);
        if blocks.last().sha256 == zero_hash {
            rest
        } else {
            rest.push((blocks.last().sha256, path))
        }
    }
}

/// The blocks that files need from the store.
pub open spec fn required_in(files: Seq<cas::FileView>, zero_hash: Seq<char>) -> Seq<
    (Seq<char>, Seq<char>),
>
    decreases files.len(),
{
    if files.len() == 0 {
        Seq::empty()
    } else {
        required_in(files.drop_last(), zero_hash) + required_in_file(
            files.last().blocks,
            files.last().path,
            zero_hash,
        )
    }
}

fn add_required(r: &mut Vec<RequiredBlock>, file: &CasManifestFile, zero_hash: &str)
    ensures
        required_views(final(r)@) == required_views(old(r)@) + required_in_file(
            file@.blocks,
            file.path@,
            zero_hash@,
        ),
{
    let ghost before = required_views(r@);
    let ghost all = file@.blocks;
    let mut i: usize = 0;
    assert(all.take(0) =~= Seq::<cas::BlockView>::empty());
    assert(before + Seq::<(Seq<char>, Seq<char>)>::empty() =~= before);
    while i < file.blocks.len()
        invariant
            i <= file.blocks@.len(),
            before == required_views(old(r)@),
            all == file@.blocks,
            required_views(r@) == before + required_in_file(
                all.take(i as int),
                file.path@,
                zero_hash@,
            ),
        decreases file.blocks@.len() - i,
    {
        proof {
            assert(all.take(i + 1).drop_last() =~= all.take(i as int));
            assert(all.take(i + 1).last() == file.blocks@[i as int]@);
        }
        if !text::same(file.blocks[i].sha256.as_str(), zero_hash) {
            let ghost had = required_views(r@);
            r.push(
                RequiredBlock {
                    sha256: file.blocks[i].sha256.clone(),
                    path: file.path.clone(),
                },
            );
            assert(required_views(r@) =~= had.push((file.blocks@[i as int].sha256@, file.path@)));
            assert(required_views(r@) =~= before + required_in_file(
                all.take(i + 1),
                file.path@,
                zero_hash@,
            ));
        }
        i = i + 1;
    }
    assert(all.take(i as int) =~= all);
}

/// The blocks that files need from the store, given the digest of a full block of zeros.
pub fn required_blocks_with(manifest: &CasUploadManifest, zero_hash: &str) -> (r: Vec<
    RequiredBlock,
>)
    ensures
        required_views(r@) == required_in(cas::file_views(manifest.files@), zero_hash@),
{
    let ghost all = cas::file_views(manifest.files@);
    let mut r: Vec<RequiredBlock> = Vec::new();
    let mut i: usize = 0;
    assert(all.take(0) =~= Seq::<cas::FileView>::empty());
    assert(required_views(r@) =~= Seq::<(Seq<char>, Seq<char>)>::empty());
    while i < manifest.files.len()
        invariant
            i <= manifest.files@.len(),
            all == cas::file_views(manifest.files@),
            required_views(r@) == required_in(all.take(i as int), zero_hash@),
        decreases manifest.files@.len() - i,
    {
        proof {
            assert(all.take(i + 1).drop_last() =~= all.take(i as int));
            assert(all.take(i + 1).last() == manifest.files@[i as int]@);
        }
        add_required(&mut r, &manifest.files[i], zero_hash);
        i = i + 1;
    }
    assert(all.take(i as int) =~= all);
    r
}

/// The blocks that files need from the store.
pub fn required_blocks(manifest: &CasUploadManifest) -> (r: Vec<RequiredBlock>)
    ensures
        required_views(r@) == required_in(
            cas::file_views(manifest.files@),
            digest::hex_of(digest::sha256_of(digest::zero_block())),
        ),
{
    required_blocks_with(manifest, digest::zero_block_hash().as_str())
}

/// The place of the first block that is not there.
pub open spec fn first_absent(present: Seq<bool>, from: int) -> int
    decreases present.len() - from,
{
    if from < 0 || from >= present.len() || !present[from] {
        from
    } else {
        first_absent(present, from + 1)
    }
}

/// Checks that the blocks that files need are there.
pub fn verify_cas_manifest_blocks_exist(required: &Vec<RequiredBlock>, present: &Vec<bool>) -> (r:
    Option<ImportRefusal>)
    requires
        required@.len() == present@.len(),
    ensures
        ({
            let i = first_absent(present@, 0);
            if i == present@.len() {
                r is None
            } else {
                r matches Some(ImportRefusal::NoBlock { sha256, path }) && (sha256@, path@)
                    == required_views(required@)[i]
            }
        }),
{
    let mut i: usize = 0;
    while i < required.len()
        invariant
            i <= required@.len() == present@.len(),
            first_absent(present@, 0) == first_absent(present@, i as int),
        decreases required@.len() - i,
    {
        if !present[i] {
            return Some(
                ImportRefusal::NoBlock {
                    sha256: required[i].sha256.clone(),
                    path: required[i].path.clone(),
                },
            );
        }
        i = i + 1;
    }
    None
}

// ---------------------------------------------------------------------------
// Snapshots in a sandbox
// ---------------------------------------------------------------------------

/// The path of a file of an instance's snapshot in a sandbox.
pub open spec fn snapshot_file_path(source: Seq<char>, name: Seq<char>) -> Seq<char> {
    "instances/"@ + source + "/memory-snapshots/latest/"@ + name
}

/// The path of a file of an instance's snapshot in a sandbox.
pub fn snapshot_path_in_sandbox(source: &str, name: &str) -> (p: String)
    ensures
        p@ == snapshot_file_path(source@, name@),
{
    let mut p: String = "instances/".to_owned();
    p.append(source);
    p.append("/memory-snapshots/latest/");
    p.append(name);
    p
}

/// Whether no file before one has a path.
pub open spec fn not_before(files: Seq<CasManifestFile>, path: Seq<char>, n: int) -> bool {
    forall|i: int| 0 <= i < n ==> #[trigger] files[i].path@ != path
}

fn find_file(files: &Vec<CasManifestFile>, path: &str) -> (r: Option<usize>)
    ensures
        match r {
            Some(i) => i < files@.len() && files@[i as int].path@ == path@ && not_before(
                files@,
                path@,
                i as int,
            ),
            None => not_before(files@, path@, files@.len() as int),
        },
{
    let mut i: usize = 0;
    while i < files.len()
        invariant
            i <= files@.len(),
            not_before(files@, path@, i as int),
        decreases files@.len() - i,
    {
        if text::same(files[i].path.as_str(), path) {
            return Some(i);
        }
        i = i + 1;
    }
    None
}

/// What a manifest says of a snapshot.
#[derive(Debug, PartialEq, Eq)]
pub enum SnapshotInManifest {
    /// It holds none.
    NoSnapshot,
    /// It holds one with no record of how it was launched.
    NoLaunch(ImportRefusal),
    /// The file with this index is the record of how it was launched.
    Launch(usize),
}

/// Looks for the snapshot in a manifest, and for the record of how it was launched.
pub fn snapshot_in_manifest(manifest: &CasUploadManifest) -> (r: SnapshotInManifest)
    ensures
        ({
            let state = snapshot_file_path(manifest.source_instance@, "vmstate.bin"@);
            let launch = snapshot_file_path(manifest.source_instance@, "launch.json"@);
            let n = manifest.files@.len() as int;
            if not_before(manifest.files@, state, n) {
                r is NoSnapshot
            } else if not_before(manifest.files@, launch, n) {
                r matches SnapshotInManifest::NoLaunch(ImportRefusal::NoLaunch { path }) && path@
                    == launch
            } else {
                r matches SnapshotInManifest::Launch(i) && i < n
                    && manifest.files@[i as int].path@ == launch && not_before(
                    manifest.files@,
                    launch,
                    i as int,
                )
            }
        }),
{
    let source: &str = manifest.source_instance.as_str();
    let state: String = snapshot_path_in_sandbox(source, "vmstate.bin");
    let launch: String = snapshot_path_in_sandbox(source, "launch.json");
    match find_file(&manifest.files, state.as_str()) {
        None => SnapshotInManifest::NoSnapshot,
        Some(_) => match find_file(&manifest.files, launch.as_str()) {
            None => SnapshotInManifest::NoLaunch(ImportRefusal::NoLaunch { path: launch }),
            Some(i) => SnapshotInManifest::Launch(i),
        },
    }
}

/// Checks that the snapshot of a sandbox can be restored on this server. `reason` says how
/// its launch differs, where it does.
pub fn validate_imported_snapshot(source: &str, reason: Option<String>) -> (r: Option<
    ImportRefusal,
>)
    ensures
        match reason {
            None => r is None,
            Some(why) => r matches Some(ImportRefusal::OtherShares { reason: w, path }) && w@
                == why@ && path@ == snapshot_file_path(source@, "launch.json"@),
        },
{
    match reason {
        None => None,
        Some(reason) => Some(
            ImportRefusal::OtherShares {
                reason,
                path: snapshot_path_in_sandbox(source, "launch.json"),
            },
        ),
    }
}

/// The instance that a directory of a sandbox holds, by the name of the directory.
pub fn imported_source(imported: &str) -> (s: String)
    ensures
        s@ == (match paths::name_of(imported@) {
            Some(name) => name,
            None => "unknown"@,
        }),
{
    match paths::file_name(imported) {
        Some(name) => name,
        None => "unknown".to_owned(),
    }
}

// ---------------------------------------------------------------------------
// Putting an import in place
// ---------------------------------------------------------------------------

/// Checks that a sandbox holds a disk.
pub fn check_imported(source: &str, has_rootfs: bool) -> (r: Option<ImportRefusal>)
    ensures
        has_rootfs ==> r is None,
        !has_rootfs ==> (r matches Some(ImportRefusal::NoRootfs { instance: i }) && i@ == source@),
{
    if has_rootfs {
        None
    } else {
        Some(ImportRefusal::NoRootfs { instance: source.to_owned() })
    }
}

/// The directories that are removed before an import is put in place.
pub fn replaced_directories(layout: &paths::Layout, replace: bool) -> (r: Vec<String>)
    ensures
        text::views(r@) == (if !replace {
            Seq::empty()
        } else if paths::components(layout.run_dir@) == paths::components(layout.instance_dir@) {
            seq![layout.instance_dir@]
        } else {
            seq![layout.instance_dir@, layout.run_dir@]
        }),
{
    let mut r: Vec<String> = Vec::new();
    if replace {
        r.push(layout.instance_dir.clone());
        if !paths::same_path(layout.run_dir.as_str(), layout.instance_dir.as_str()) {
            r.push(layout.run_dir.clone());
            assert(text::views(r@) =~= seq![layout.instance_dir@, layout.run_dir@]);
        } else {
            assert(text::views(r@) =~= seq![layout.instance_dir@]);
        }
    } else {
        assert(text::views(r@) =~= Seq::<Seq<char>>::empty());
    }
    r
}

/// Whether the kernel of a sandbox is installed: an installed one is kept.
pub fn installs_kernel(in_bundle: bool, installed: bool) -> (r: bool)
    ensures
        r == (in_bundle && !installed),
{
    in_bundle && !installed
}

/// The answer to an import.
#[derive(Debug, PartialEq, Eq)]
pub struct ImportResponse {
    pub ok: bool,
    pub instance: String,
    pub imported: String,
    pub started: bool,
    pub status: Option<i32>,
}

/// The answer to an import that was put in place. `status` is that of the command that
/// started it, if it was started.
pub fn import_response(target: &str, source: &str, started: bool, status: Option<i32>) -> (r:
    ImportResponse)
    ensures
        r.ok,
        r.instance@ == target@,
        r.imported@ == source@,
        r.started == started,
        r.status == status,
{
    ImportResponse {
        ok: true,
        instance: target.to_owned(),
        imported: source.to_owned(),
        started,
        status,
    }
}

// ---------------------------------------------------------------------------
// Laws of requests
// ---------------------------------------------------------------------------

/// Three words mean yes, and no other text does.
pub proof fn lemma_means_yes(s: Seq<char>)
    ensures
        means_yes(s) <==> s == seq!['1'] || s == seq!['t', 'r', 'u', 'e'] || s == seq![
            'y',
            'e',
            's',
        ],
{
    reveal_strlit("1");
    reveal_strlit("true");
    reveal_strlit("yes");
    assert("1"@ =~= seq!['1']);
    assert("true"@ =~= seq!['t', 'r', 'u', 'e']);
    assert("yes"@ =~= seq!['y', 'e', 's']);
}

/// When the headers of a request are taken, and what they then say. A source is always
/// needed; a header that is there has to be text; a command and a time that are given
/// have to be readable; and what is missing or empty asks for nothing.
pub proof fn lemma_taken_headers(headers: ImportHeaders, command: Option<Seq<Seq<char>>>)
    ensures
        options_in(headers, command) is Ok <==> {
            &&& headers.source_instance is Text
            &&& !(headers.command_json is NotText)
            &&& !(headers.replace is NotText)
            &&& !(headers.start is NotText)
            &&& !(headers.idle_ttl_ms is NotText)
            &&& given(headers.command_json) is Some ==> command is Some
            &&& given(headers.idle_ttl_ms) matches Some(s) ==> text::parsed(s, u64::MAX as nat)
                is Some
        },
        options_in(headers, command) matches Ok(o) ==> {
            &&& headers.source_instance matches Header::Text(s) && o.source_instance == s@
            &&& o.replace <==> (headers.replace matches Header::Text(s) && means_yes(s@))
            &&& o.start <==> (headers.start matches Header::Text(s) && means_yes(s@))
            &&& given(headers.command_json) is None ==> o.command.len() == 0
            &&& given(headers.command_json) is Some ==> Some(o.command) == command
            &&& given(headers.idle_ttl_ms) is None ==> o.idle_ttl_ms is None
            &&& given(headers.idle_ttl_ms) matches Some(s) ==> (o.idle_ttl_ms matches Some(ms)
                && text::parsed(s, u64::MAX as nat) == Some(ms as nat))
        },
        forall|h: Header|
            (#[trigger] given(h) is Some) <==> (h matches Header::Text(s) && s@.len() > 0),
        forall|s: String| s@.len() > 0 ==> #[trigger] given(Header::Text(s)) == Some(s@),
{
    if let Some(s) = given(headers.idle_ttl_ms) {
        text::lemma_reading_a_number(s, u64::MAX as nat);
    }
}

/// A request's content is a bundle by its type alone, whatever parameters follow, and
/// whatever space stands around the type.
pub proof fn lemma_bundle_type(kind: Seq<char>, parameters: Seq<char>)
    requires
        !kind.contains(';'),
    ensures
        is_sparse_bundle_type(kind) <==> text::trimmed(kind) == "application/x-lnx-sparse-bundle"@,
        is_sparse_bundle_type(kind + seq![';'] + parameters) <==> is_sparse_bundle_type(kind),
{
    text::lemma_split_of_one(kind, ';');
    text::lemma_split_of_two(kind, parameters, ';');
}

/// An import is refused for its target exactly where that runs or starts, or where it is
/// there already and is not to be replaced.
pub proof fn lemma_when_a_target_is_free(
    instance: Seq<char>,
    seen: TargetSeen,
    replace: bool,
    r: Option<ImportRefusal>,
)
    requires
        is_target_refusal(instance, seen, replace, r),
    ensures
        r is None <==> !seen.broker_answers && !seen.lock_exists && (replace || !(seen.has_rootfs
            || seen.has_snapshots)),
        r matches Some(ImportRefusal::Running { instance: i }) ==> seen.broker_answers && i@
            == instance,
        r matches Some(ImportRefusal::Starting { instance: i }) ==> !seen.broker_answers
            && seen.lock_exists && i@ == instance,
        r matches Some(ImportRefusal::Exists { instance: i }) ==> !replace && i@ == instance,
{
}

/// An upload is taken exactly where its manifest has the version 2 and nothing wrong, and
/// its target is free.
pub proof fn lemma_when_an_upload_is_taken(
    target: Seq<char>,
    manifest: CasUploadManifest,
    seen: TargetSeen,
)
    ensures
        is_upload_refusal(target, manifest, seen, None) <==> {
            &&& manifest.version == 2
            &&& !seen.broker_answers && !seen.lock_exists
            &&& manifest.replace || !(seen.has_rootfs || seen.has_snapshots)
            &&& cas::manifest_problem(
                manifest.source_instance@,
                cas::file_views(manifest.files@),
            ) is None
        },
{
}

/// What a file needs from the store: every block of it in its order, but none that is all
/// zeros.
pub proof fn lemma_required_in_file(
    a: Seq<cas::BlockView>,
    b: Seq<cas::BlockView>,
    block: cas::BlockView,
    path: Seq<char>,
    zero_hash: Seq<char>,
)
    ensures
        required_in_file(a + b, path, zero_hash) == required_in_file(a, path, zero_hash)
            + required_in_file(b, path, zero_hash),
        block.sha256 == zero_hash ==> required_in_file(seq![block], path, zero_hash) == Seq::<
            (Seq<char>, Seq<char>),
        >::empty(),
        block.sha256 != zero_hash ==> required_in_file(seq![block], path, zero_hash) == seq![
            (block.sha256, path),
        ],
        required_in_file(Seq::empty(), path, zero_hash) == Seq::<(Seq<char>, Seq<char>)>::empty(),
    decreases b.len(),
{
    reveal_with_fuel(required_in_file, 2);
    assert(seq![block].drop_last() =~= Seq::<cas::BlockView>::empty());
    if block.sha256 != zero_hash {
        assert(required_in_file(seq![block], path, zero_hash) =~= seq![(block.sha256, path)]);
    }
    if b.len() == 0 {
        assert(a + b =~= a);
        assert(required_in_file(a, path, zero_hash) + required_in_file(b, path, zero_hash)
            =~= required_in_file(a, path, zero_hash));
    } else {
        lemma_required_in_file(a, b.drop_last(), block, path, zero_hash);
        assert((a + b).drop_last() =~= a + b.drop_last());
        assert(required_in_file(a + b, path, zero_hash) =~= required_in_file(a, path, zero_hash)
            + required_in_file(b, path, zero_hash));
    }
}

/// What files need from the store is what each of them needs, one after the other.
pub proof fn lemma_required_in(
    a: Seq<cas::FileView>,
    b: Seq<cas::FileView>,
    file: cas::FileView,
    zero_hash: Seq<char>,
)
    ensures
        required_in(a + b, zero_hash) == required_in(a, zero_hash) + required_in(b, zero_hash),
        required_in(seq![file], zero_hash) == required_in_file(file.blocks, file.path, zero_hash),
        required_in(Seq::empty(), zero_hash) == Seq::<(Seq<char>, Seq<char>)>::empty(),
    decreases b.len(),
{
    reveal_with_fuel(required_in, 2);
    assert(seq![file].drop_last() =~= Seq::<cas::FileView>::empty());
    assert(required_in(seq![file], zero_hash) =~= required_in_file(
        file.blocks,
        file.path,
        zero_hash,
    ));
    if b.len() == 0 {
        assert(a + b =~= a);
        assert(required_in(a, zero_hash) + required_in(b, zero_hash) =~= required_in(a, zero_hash));
    } else {
        lemma_required_in(a, b.drop_last(), file, zero_hash);
        assert((a + b).drop_last() =~= a + b.drop_last());
        assert(required_in(a + b, zero_hash) =~= required_in(a, zero_hash) + required_in(
            b,
            zero_hash,
        ));
    }
}

/// The block that is reported is the first that is not there; all are there where none is
/// reported.
pub proof fn lemma_first_absent(present: Seq<bool>, from: int)
    requires
        0 <= from <= present.len(),
    ensures
        from <= first_absent(present, from) <= present.len(),
        forall|i: int| from <= i < first_absent(present, from) ==> #[trigger] present[i],
        first_absent(present, from) < present.len() ==> !present[first_absent(present, from)],
    decreases present.len() - from,
{
    if from < present.len() && present[from] {
        lemma_first_absent(present, from + 1);
    }
}

/// A file of an instance's snapshot stands in a sandbox where it stands below the
/// directory that instances are kept in.
#[verifier::spinoff_prover]
#[verifier::rlimit(40)]
pub proof fn lemma_snapshot_file_path(source: Seq<char>, name: Seq<char>)
    requires
        source.len() > 0,
        !source.contains('/'),
        paths::is_name(source),
        name.len() > 0,
        !name.contains('/'),
        paths::is_name(name),
    ensures
        paths::components(snapshot_file_path(source, name)) == seq![
            "instances"@,
            source,
            "memory-snapshots"@,
            "latest"@,
            name,
        ],
{
    reveal_strlit("instances/");
    reveal_strlit("/memory-snapshots/latest/");
    reveal_strlit("instances");
    reveal_strlit("memory-snapshots");
    reveal_strlit("latest");
    let none = Seq::<char>::empty();
    let i = "instances"@;
    let m = "memory-snapshots"@;
    let l = "latest"@;
    assert(!i.contains('/') && !m.contains('/') && !l.contains('/'));
    assert(i.len() == 9 && m.len() == 16 && l.len() == 6);
    paths::lemma_name_in_directory(none, i);
    assert(paths::joined(none, i) =~= i);
    assert(!none.contains('/'));
    paths::lemma_joined_lies_in(none, i);
    let a = paths::joined(i, source);
    paths::lemma_name_in_directory(i, source);
    let b = paths::joined(a, m);
    paths::lemma_name_in_directory(a, m);
    let c = paths::joined(b, l);
    paths::lemma_name_in_directory(b, l);
    let d = paths::joined(c, name);
    paths::lemma_name_in_directory(c, name);
    let s = seq!['/'];
    assert(!paths::is_absolute(source)) by {
        if paths::is_absolute(source) {
            assert(source.contains(source[0]));
        }
    }
    assert(!paths::is_absolute(name)) by {
        if paths::is_absolute(name) {
            assert(name.contains(name[0]));
        }
    }
    assert(source.last() != '/') by {
        if source.last() == '/' {
            assert(source.contains(source[source.len() - 1]));
        }
    }
    assert(a =~= i + s + source);
    assert(b =~= a + s + m);
    assert(c =~= b + s + l);
    assert(d =~= c + s + name);
    assert("instances/"@ =~= i + s);
    assert("/memory-snapshots/latest/"@ =~= s + m + s + l + s);
    assert(snapshot_file_path(source, name) =~= d);
    assert(paths::components(none) =~= Seq::<Seq<char>>::empty()) by {
        paths::lemma_rendered(Seq::empty());
        assert(paths::rendered(Seq::empty()) =~= none);
    }
    assert(paths::components(none).push(i).push(source).push(m).push(l).push(name) =~= seq![
        i,
        source,
        m,
        l,
        name,
    ]);
}

/// Why an upload is refused: for its version before anything else, then for its target,
/// and only then for what is wrong with its manifest.
pub proof fn lemma_why_an_upload_is_refused(
    target: Seq<char>,
    manifest: CasUploadManifest,
    seen: TargetSeen,
    refusal: ImportRefusal,
)
    requires
        is_upload_refusal(target, manifest, seen, Some(refusal)),
    ensures
        refusal is Version <==> manifest.version != 2,
        refusal is Running <==> manifest.version == 2 && seen.broker_answers,
        refusal is Starting <==> manifest.version == 2 && !seen.broker_answers && seen.lock_exists,
        refusal is Exists <==> manifest.version == 2 && !seen.broker_answers && !seen.lock_exists
            && !manifest.replace && (seen.has_rootfs || seen.has_snapshots),
        refusal matches ImportRefusal::Version { version } ==> version == manifest.version,
        refusal matches ImportRefusal::Running { instance } ==> instance@ == target,
        refusal matches ImportRefusal::Starting { instance } ==> instance@ == target,
        refusal matches ImportRefusal::Exists { instance } ==> instance@ == target,
        refusal matches ImportRefusal::Manifest(e) ==> cas::manifest_problem(
            manifest.source_instance@,
            cas::file_views(manifest.files@),
        ) == Some(e@),
{
}

/// What is looked at of options and of needed blocks: all that they say.
pub proof fn lemma_view_of_options(o: ImportOptions, blocks: Seq<RequiredBlock>)
    ensures
        o@.source_instance == o.source_instance@,
        o@.replace == o.replace,
        o@.start == o.start,
        o@.idle_ttl_ms == o.idle_ttl_ms,
        o@.command == text::views(o.command@),
        required_views(blocks).len() == blocks.len(),
        forall|i: int|
            0 <= i < blocks.len() ==> #[trigger] required_views(blocks)[i] == (
                blocks[i].sha256@,
                blocks[i].path@,
            ),
{
}

} // verus!
