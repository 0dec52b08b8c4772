//! Content-addressed uploads: a file is a list of blocks, a block is named by its digest,
//! and only the blocks that the server does not have are sent.
use vstd::hash_map::StringHashMap;
use vstd::hash_set::StringHashSet;
use vstd::prelude::*;

use crate::bytes;
use crate::compress;
use crate::digest;
use crate::digest::CAS_BLOCK_SIZE;
use crate::names;
use crate::paths;
use crate::sparse;
use crate::text;

verus! {

/// The version of the manifest that the server takes.
pub const CAS_MANIFEST_VERSION: u32 = 2;

/// How large a manifest may be, in bytes.
pub const CAS_MANIFEST_MAX_BYTES: usize = 536870912;

/// What is uploaded.
#[derive(Debug, PartialEq, Eq)]
pub struct CasUploadManifest {
    pub version: u32,
    pub source_instance: String,
    pub replace: bool,
    pub start: bool,
    pub idle_ttl_ms: Option<u64>,
    pub command: Vec<String>,
    pub files: Vec<CasManifestFile>,
}

/// A file, by its blocks. What lies in none of them is zero.
#[derive(Debug, PartialEq, Eq)]
pub struct CasManifestFile {
    pub path: String,
    pub len: u64,
    pub mode: u32,
    pub blocks: Vec<CasManifestBlock>,
}

/// A block of a file.
#[derive(Debug, PartialEq, Eq)]
pub struct CasManifestBlock {
    pub offset: u64,
    pub len: u64,
    pub sha256: String,
}

/// A block, as plain values.
pub struct BlockView {
    pub offset: u64,
    pub len: u64,
    pub sha256: Seq<char>,
}

/// A file, as plain values.
pub struct FileView {
    pub path: Seq<char>,
    pub len: u64,
    pub blocks: Seq<BlockView>,
}

impl CasManifestBlock {
    /// The block, as plain values.
    pub open spec fn view(self) -> BlockView {
        BlockView { offset: self.offset, len: self.len, sha256: self.sha256@ }
    }
}

/// Blocks, as plain values.
pub open spec fn block_views(blocks: Seq<CasManifestBlock>) -> Seq<BlockView> {
    Seq::new(blocks.len(), |i: int| blocks[i].view())
}

impl CasManifestFile {
    /// The file, as plain values.
    pub open spec fn view(self) -> FileView {
        FileView { path: self.path@, len: self.len, blocks: block_views(self.blocks@) }
    }
}

/// Files, as plain values.
pub open spec fn file_views(files: Seq<CasManifestFile>) -> Seq<FileView> {
    Seq::new(files.len(), |i: int| files[i].view())
}

// ---------------------------------------------------------------------------
// Paths of files
// ---------------------------------------------------------------------------

/// Whether a path stays below the directory that it is taken from.
pub open spec fn is_safe_path(p: Seq<char>) -> bool {
    !paths::is_absolute(p) && !paths::components(p).contains(seq!['.', '.'])
}

/// A path that would leave the directory that it is taken from.
#[derive(Debug, PartialEq, Eq)]
pub struct UnsafePath {
    pub path: String,
}

impl UnsafePath {
    /// The message shown to the user.
    pub fn message(&self) -> (m: String)
        ensures
            m@ == "unsafe sparse bundle path: "@ + self.path@,
    {
        let mut m: String = "unsafe sparse bundle path: ".to_owned();
        m.append(self.path.as_str());
        m
    }
}

/// Whether a path stays below the directory that it is taken from.
pub fn path_is_safe(path: &str) -> (r: bool)
    ensures
        r == is_safe_path(path@),
{
    if paths::absolute(path) {
        return false;
    }
    proof {
        reveal_strlit("..");
        assert(".."@ =~= seq!['.', '.']);
    }
    let parts: Vec<String> = paths::components_of(path);
    let ghost all = paths::components(path@);
    let mut i: usize = 0;
    while i < parts.len()
        invariant
            i <= parts@.len(),
            all == paths::components(path@),
            all == text::views(parts@),
            ".."@ == seq!['.', '.'],
            !paths::is_absolute(path@),
            forall|k: int| 0 <= k < i ==> #[trigger] all[k] != seq!['.', '.'],
        decreases parts@.len() - i,
    {
        if text::same(parts[i].as_str(), "..") {
            assert(all[i as int] == seq!['.', '.']);
            return false;
        }
        i = i + 1;
    }
    true
}

/// Checks that a path stays below the directory that it is taken from.
pub fn safe_bundle_relative_path(path: &str) -> (r: Result<(), UnsafePath>)
    ensures
        r is Ok <==> is_safe_path(path@),
        r matches Err(e) ==> e.path@ == path@,
{
    if path_is_safe(path) {
        Ok(())
    } else {
        Err(UnsafePath { path: path.to_owned() })
    }
}

// ---------------------------------------------------------------------------
// Valid manifests
// ---------------------------------------------------------------------------

/// What is wrong with a manifest.
#[derive(Debug, PartialEq, Eq)]
pub enum ManifestError {
    Name { name: String },
    UnsafePath { path: String },
    Duplicate { path: String },
    EmptyPath,
    Hash { value: String },
    Length { len: u64, path: String },
    OutOfBounds { path: String },
    Overlap { path: String },
}

/// What is wrong with a manifest, as plain values.
pub enum Problem {
    Name(Seq<char>),
    UnsafePath(Seq<char>),
    Duplicate(Seq<char>),
    EmptyPath,
    Hash(Seq<char>),
    Length(u64, Seq<char>),
    OutOfBounds(Seq<char>),
    Overlap(Seq<char>),
}

impl ManifestError {
    /// The error, as plain values.
    pub open spec fn view(self) -> Problem {
        match self {
            ManifestError::Name { name } => Problem::Name(name@),
            ManifestError::UnsafePath { path } => Problem::UnsafePath(path@),
            ManifestError::Duplicate { path } => Problem::Duplicate(path@),
            ManifestError::EmptyPath => Problem::EmptyPath,
            ManifestError::Hash { value } => Problem::Hash(value@),
            ManifestError::Length { len, path } => Problem::Length(len, path@),
            ManifestError::OutOfBounds { path } => Problem::OutOfBounds(path@),
            ManifestError::Overlap { path } => Problem::Overlap(path@),
        }
    }

    /// The message shown to the user.
    pub open spec fn text(self) -> Seq<char> {
        match self {
            ManifestError::Name { name } => "invalid instance name: "@ + name@,
            ManifestError::UnsafePath { path } => "unsafe sparse bundle path: "@ + path@,
            ManifestError::Duplicate { path } => "duplicate file in CAS manifest: "@ + path@,
            ManifestError::EmptyPath => "empty file path in CAS manifest"@,
            ManifestError::Hash { value } => "invalid sha256 hex: "@ + value@,
            ManifestError::Length { len, path } => "invalid CAS block length "@ + text::dec(
                len as nat,
            ) + " in "@ + path@,
            ManifestError::OutOfBounds { path } => "CAS block out of bounds for "@ + path@,
            ManifestError::Overlap { path } => "overlapping CAS blocks in "@ + path@,
        }
    }

    /// The message shown to the user.
    pub fn message(&self) -> (m: String)
        ensures
            m@ == self.text(),
    {
        match self {
            ManifestError::Name { name } => {
                let mut m: String = "invalid instance name: ".to_owned();
                m.append(name.as_str());
                m
            },
            ManifestError::UnsafePath { path } => {
                let mut m: String = "unsafe sparse bundle path: ".to_owned();
                m.append(path.as_str());
                m
            },
            ManifestError::Duplicate { path } => {
                let mut m: String = "duplicate file in CAS manifest: ".to_owned();
                m.append(path.as_str());
                m
            },
            ManifestError::EmptyPath => "empty file path in CAS manifest".to_owned(),
            ManifestError::Hash { value } => {
                let mut m: String = "invalid sha256 hex: ".to_owned();
                m.append(value.as_str());
                m
            },
            ManifestError::Length { len, path } => {
                let mut m: String = "invalid CAS block length ".to_owned();
                text::push_dec(&mut m, *len as u128);
                m.append(" in ");
                m.append(path.as_str());
                m
            },
            ManifestError::OutOfBounds { path } => {
                let mut m: String = "CAS block out of bounds for ".to_owned();
                m.append(path.as_str());
                m
            },
            ManifestError::Overlap { path } => {
                let mut m: String = "overlapping CAS blocks in ".to_owned();
                m.append(path.as_str());
                m
            },
        }
    }
}

/// The first thing that is wrong with blocks that follow a place in a file.
pub open spec fn blocks_problem(
    path: Seq<char>,
    file_len: u64,
    blocks: Seq<BlockView>,
    previous_end: int,
) -> Option<Problem>
    decreases blocks.len(),
{
    if blocks.len() == 0 {
        None
    } else {
        let b = blocks[0];
        if !digest::is_sha256_hex(b.sha256) {
            Some(Problem::Hash(b.sha256))
        } else if b.len == 0 || b.len > CAS_BLOCK_SIZE {
            Some(Problem::Length(b.len, path))
        } else if b.offset + b.len > file_len {
            Some(Problem::OutOfBounds(path))
        } else if b.offset < previous_end {
            Some(Problem::Overlap(path))
        } else {
            blocks_problem(path, file_len, blocks.skip(1), b.offset + b.len)
        }
    }
}

/// Whether a file has the path of an earlier one.
pub open spec fn is_repeat(files: Seq<FileView>, i: int) -> bool {
    exists|j: int| 0 <= j < i && #[trigger] files[j].path == files[i].path
}

/// The first thing that is wrong with files from one on.
pub open spec fn files_problem(files: Seq<FileView>, i: int) -> Option<Problem>
    decreases files.len() - i,
{
    if i < 0 || i >= files.len() {
        None
    } else {
        let f = files[i];
        if !is_safe_path(f.path) {
            Some(Problem::UnsafePath(f.path))
        } else if is_repeat(files, i) {
            Some(Problem::Duplicate(f.path))
        } else if f.path.len() == 0 {
            Some(Problem::EmptyPath)
        } else if let Some(p) = blocks_problem(f.path, f.len, f.blocks, 0) {
            Some(p)
        } else {
            files_problem(files, i + 1)
        }
    }
}

/// The first thing that is wrong with a manifest.
pub open spec fn manifest_problem(source: Seq<char>, files: Seq<FileView>) -> Option<Problem> {
    if !names::is_instance_name(source) {
        Some(Problem::Name(source))
    } else {
        files_problem(files, 0)
    }
}

/// Whether the blocks of a file are in order, do not overlap and lie in the file.
pub open spec fn are_valid_blocks(file_len: u64, blocks: Seq<BlockView>) -> bool {
    &&& forall|i: int|
        0 <= i < blocks.len() ==> {
            let b = #[trigger] blocks[i];
            &&& digest::is_sha256_hex(b.sha256)
            &&& 0 < b.len <= CAS_BLOCK_SIZE
            &&& b.offset + b.len <= file_len
        }
    &&& forall|i: int, j: int|
        0 <= i < j < blocks.len() ==> (#[trigger] blocks[i]).offset + blocks[i].len
            <= (#[trigger] blocks[j]).offset
}

/// Whether a manifest is valid: the source has the name of an instance, every file has a
/// path of its own that stays below its directory, and the blocks of every file are in
/// order, do not overlap and lie in it.
pub open spec fn is_valid_manifest(source: Seq<char>, files: Seq<FileView>) -> bool {
    &&& names::is_instance_name(source)
    &&& forall|i: int|
        0 <= i < files.len() ==> {
            let f = #[trigger] files[i];
            f.path.len() > 0 && is_safe_path(f.path) && are_valid_blocks(f.len, f.blocks)
        }
    &&& forall|i: int, j: int|
        0 <= i < j < files.len() ==> (#[trigger] files[i]).path != (#[trigger] files[j]).path
}

proof fn lemma_blocks_problem(
    path: Seq<char>,
    file_len: u64,
    blocks: Seq<BlockView>,
    previous_end: int,
)
    ensures
        blocks_problem(path, file_len, blocks, previous_end) is None <==> (are_valid_blocks(
            file_len,
            blocks,
        ) && (blocks.len() > 0 ==> blocks[0].offset >= previous_end)),
    decreases blocks.len(),
{
    if blocks.len() > 0 {
        let b = blocks[0];
        let rest = blocks.skip(1);
        lemma_blocks_problem(path, file_len, rest, b.offset + b.len);
        if blocks_problem(path, file_len, blocks, previous_end) is None {
            assert forall|i: int| 0 <= i < blocks.len() implies {
                let c = #[trigger] blocks[i];
                &&& digest::is_sha256_hex(c.sha256)
                &&& 0 < c.len <= CAS_BLOCK_SIZE
                &&& c.offset + c.len <= file_len
            } by {
                if i > 0 {
                    assert(rest[i - 1] == blocks[i]);
                }
            }
            assert forall|i: int, j: int| 0 <= i < j < blocks.len() implies (
            #[trigger] blocks[i]).offset + blocks[i].len <= (#[trigger] blocks[j]).offset by {
                assert(rest[j - 1] == blocks[j]);
                if i > 0 {
                    assert(rest[i - 1] == blocks[i]);
                } else if j > 1 {
                    assert(rest[0].offset + rest[0].len <= rest[j - 1].offset);
                }
            }
        }
        if are_valid_blocks(file_len, blocks) {
            assert forall|i: int| 0 <= i < rest.len() implies {
                let c = #[trigger] rest[i];
                &&& digest::is_sha256_hex(c.sha256)
                &&& 0 < c.len <= CAS_BLOCK_SIZE
                &&& c.offset + c.len <= file_len
            } by {
                assert(rest[i] == blocks[i + 1]);
            }
            assert forall|i: int, j: int| 0 <= i < j < rest.len() implies (
            #[trigger] rest[i]).offset + rest[i].len <= (#[trigger] rest[j]).offset by {
                assert(rest[i] == blocks[i + 1] && rest[j] == blocks[j + 1]);
            }
            if rest.len() > 0 {
                assert(rest[0] == blocks[1]);
            }
            assert(are_valid_blocks(file_len, rest));
            assert(digest::is_sha256_hex(blocks[0].sha256));
        }
    }
}

proof fn lemma_files_problem(files: Seq<FileView>, i: int)
    requires
        0 <= i <= files.len(),
    ensures
        files_problem(files, i) is None <==> forall|k: int|
            i <= k < files.len() ==> {
                let f = #[trigger] files[k];
                &&& f.path.len() > 0
                &&& is_safe_path(f.path)
                &&& are_valid_blocks(f.len, f.blocks)
                &&& !is_repeat(files, k)
            },
    decreases files.len() - i,
{
    if i < files.len() {
        lemma_files_problem(files, i + 1);
        let f = files[i];
        lemma_blocks_problem(f.path, f.len, f.blocks, 0);
    }
}

/// A manifest is accepted exactly when it is valid.
pub proof fn lemma_accepted_manifests_are_valid(source: Seq<char>, files: Seq<FileView>)
    ensures
        manifest_problem(source, files) is None <==> is_valid_manifest(source, files),
{
    lemma_files_problem(files, 0);
    if manifest_problem(source, files) is None {
        assert forall|i: int, j: int| 0 <= i < j < files.len() implies (#[trigger] files[i]).path
            != (#[trigger] files[j]).path by {
            assert(!is_repeat(files, j));
        }
    }
    if is_valid_manifest(source, files) {
        assert forall|k: int| 0 <= k < files.len() implies !is_repeat(files, k) by {
            if is_repeat(files, k) {
                let j = choose|j: int| 0 <= j < k && #[trigger] files[j].path == files[k].path;
                assert(files[j].path != files[k].path);
            }
        }
    }
}

fn check_blocks(file: &CasManifestFile) -> (r: Result<(), ManifestError>)
    ensures
        match r {
            Ok(()) => blocks_problem(file.path@, file.len, file@.blocks, 0) is None,
            Err(e) => blocks_problem(file.path@, file.len, file@.blocks, 0) == Some(e@),
        },
{
    let ghost all = file@.blocks;
    let mut previous_end: u64 = 0;
    let mut i: usize = 0;
    assert(all.skip(0) =~= all);
    while i < file.blocks.len()
        invariant
            i <= file.blocks@.len(),
            all == file@.blocks,
            blocks_problem(file.path@, file.len, all, 0) == blocks_problem(
                file.path@,
                file.len,
                all.skip(i as int),
                previous_end as int,
            ),
        decreases file.blocks@.len() - i,
    {
        let block: &CasManifestBlock = &file.blocks[i];
        proof {
            assert(all.skip(i as int)[0] == block@);
            assert(all.skip(i as int).skip(1) =~= all.skip(i + 1));
        }
        if !digest::sha256_hex_is_valid(block.sha256.as_str()) {
            return Err(ManifestError::Hash { value: block.sha256.clone() });
        }
        if block.len == 0 || block.len > CAS_BLOCK_SIZE {
            return Err(ManifestError::Length { len: block.len, path: file.path.clone() });
        }
        if block.offset > file.len || block.len > file.len - block.offset {
            return Err(ManifestError::OutOfBounds { path: file.path.clone() });
        }
        if block.offset < previous_end {
            return Err(ManifestError::Overlap { path: file.path.clone() });
        }
        previous_end = block.offset + block.len;
        i = i + 1;
    }
    assert(all.skip(i as int) =~= Seq::<BlockView>::empty());
    Ok(())
}

/// Checks a manifest; the first thing that is wrong with it is the error.
pub fn validate_cas_manifest(manifest: &CasUploadManifest) -> (r: Result<(), ManifestError>)
    ensures
        match r {
            Ok(()) => manifest_problem(manifest.source_instance@, file_views(manifest.files@))
                is None,
            Err(e) => manifest_problem(manifest.source_instance@, file_views(manifest.files@))
                == Some(e@),
        },
{
    if !names::instance_name_is_valid(manifest.source_instance.as_str()) {
        return Err(ManifestError::Name { name: manifest.source_instance.clone() });
    }
    let ghost all = file_views(manifest.files@);
    let mut seen: StringHashSet = StringHashSet::new();
    let mut i: usize = 0;
    while i < manifest.files.len()
        invariant
            i <= manifest.files@.len(),
            all == file_views(manifest.files@),
            names::is_instance_name(manifest.source_instance@),
            files_problem(all, 0) == files_problem(all, i as int),
            forall|p: Seq<char>|
                seen@.contains(p) <==> exists|j: int| 0 <= j < i && #[trigger] all[j].path == p,
        decreases manifest.files@.len() - i,
    {
        let file: &CasManifestFile = &manifest.files[i];
        assert(all[i as int] == file@);
        if !path_is_safe(file.path.as_str()) {
            return Err(ManifestError::UnsafePath { path: file.path.clone() });
        }
        let ghost before = seen@;
        if !seen.insert(file.path.clone()) {
            assert(before.contains(file.path@));
            assert(is_repeat(all, i as int));
            return Err(ManifestError::Duplicate { path: file.path.clone() });
        }
        proof {
            assert(!is_repeat(all, i as int)) by {
                if is_repeat(all, i as int) {
                    assert(before.contains(file.path@));
                }
            }
            assert forall|p: Seq<char>|
                seen@.contains(p) <==> exists|j: int| 0 <= j < i + 1 && #[trigger] all[j].path
                    == p by {
                if seen@.contains(p) {
                    if before.contains(p) {
                        let j = choose|j: int| 0 <= j < i && #[trigger] all[j].path == p;
                        assert(all[j].path == p);
                    } else {
                        assert(all[i as int].path == p);
                    }
                }
                if exists|j: int| 0 <= j < i + 1 && #[trigger] all[j].path == p {
                    let j = choose|j: int| 0 <= j < i + 1 && #[trigger] all[j].path == p;
                    if j < i {
                        assert(before.contains(p));
                    }
                }
            }
        }
        if file.path.as_str().is_empty() {
            return Err(ManifestError::EmptyPath);
        }
        match check_blocks(file) {
            Err(e) => return Err(e),
            Ok(()) => {},
        }
        i = i + 1;
    }
    Ok(())
}

// ---------------------------------------------------------------------------
// What is missing
// ---------------------------------------------------------------------------

/// All blocks of files, in order.
pub open spec fn all_blocks(files: Seq<FileView>) -> Seq<BlockView>
    decreases files.len(),
{
    if files.len() == 0 {
        Seq::empty()
    } else {
        all_blocks(files.drop_last()) + files.last().blocks
    }
}

/// Whether a digest names one of some blocks.
pub open spec fn names_one(blocks: Seq<BlockView>, sha256: Seq<char>) -> bool {
    exists|i: int| 0 <= i < blocks.len() && #[trigger] blocks[i].sha256 == sha256
}

/// The blocks of which none before has the same digest.
pub open spec fn distinct(blocks: Seq<BlockView>) -> Seq<BlockView>
    decreases blocks.len(),
{
    if blocks.len() == 0 {
        Seq::empty()
    } else if names_one(blocks.drop_last(), blocks.last().sha256) {
        distinct(blocks.drop_last())
    } else {
        distinct(blocks.drop_last()).push(blocks.last())
    }
}

/// The blocks of a manifest that differ, each where it first occurs.
pub fn distinct_blocks(manifest: &CasUploadManifest) -> (r: Vec<CasManifestBlock>)
    ensures
        block_views(r@) == distinct(all_blocks(file_views(manifest.files@))),
{
    let ghost files = file_views(manifest.files@);
    let mut r: Vec<CasManifestBlock> = Vec::new();
    let mut seen: StringHashSet = StringHashSet::new();
    let mut i: usize = 0;
    assert(files.take(0) =~= Seq::<FileView>::empty());
    assert(block_views(r@) =~= Seq::<BlockView>::empty());
    while i < manifest.files.len()
        invariant
            i <= manifest.files@.len(),
            files == file_views(manifest.files@),
            block_views(r@) == distinct(all_blocks(files.take(i as int))),
            forall|h: Seq<char>|
                seen@.contains(h) == names_one(all_blocks(files.take(i as int)), h),
        decreases manifest.files@.len() - i,
    {
        let file: &CasManifestFile = &manifest.files[i];
        let ghost before = all_blocks(files.take(i as int));
        let ghost own = file@.blocks;
        proof {
            assert(files.take(i + 1).drop_last() =~= files.take(i as int));
            assert(files.take(i + 1).last() == file@);
            assert(before + own.take(0) =~= before);
        }
        let mut j: usize = 0;
        while j < file.blocks.len()
            invariant
                j <= file.blocks@.len(),
                own == file@.blocks,
                block_views(r@) == distinct(before + own.take(j as int)),
                forall|h: Seq<char>|
                    seen@.contains(h) == names_one(before + own.take(j as int), h),
            decreases file.blocks@.len() - j,
        {
            let block: &CasManifestBlock = &file.blocks[j];
            let ghost so_far = before + own.take(j as int);
            let ghost next = before + own.take(j + 1);
            let ghost known = seen@;
            proof {
                assert(next =~= so_far.push(block@));
                assert(next.drop_last() =~= so_far);
                assert(known.contains(block.sha256@) == names_one(so_far, block.sha256@));
                assert forall|h: Seq<char>|
                    known.insert(block.sha256@).contains(h) == names_one(next, h) by {
                    assert(known.contains(h) == names_one(so_far, h));
                    if names_one(so_far, h) {
                        let k = choose|k: int|
                            0 <= k < so_far.len() && #[trigger] so_far[k].sha256 == h;
                        assert(next[k].sha256 == h);
                    }
                    if h == block.sha256@ {
                        assert(next[next.len() - 1].sha256 == h);
                    }
                    if names_one(next, h) {
                        let k = choose|k: int|
                            0 <= k < next.len() && #[trigger] next[k].sha256 == h;
                        if k < so_far.len() {
                            assert(so_far[k].sha256 == h);
                        }
                    }
                }
            }
            if seen.insert(block.sha256.clone()) {
                let ghost earlier = block_views(r@);
                r.push(
                    CasManifestBlock {
                        offset: block.offset,
                        len: block.len,
                        sha256: block.sha256.clone(),
                    },
                );
                assert(block_views(r@) =~= earlier.push(block@));
            } else {
                assert(known.insert(block.sha256@) =~= known);
            }
            j = j + 1;
        }
        assert(own.take(j as int) =~= own);
        i = i + 1;
    }
    assert(files.take(i as int) =~= files);
    r
}

/// The blocks that the server does not have. A full block of zeros needs none.
pub open spec fn missing_blocks(
    blocks: Seq<BlockView>,
    present: Seq<bool>,
    zero_hash: Seq<char>,
) -> Seq<BlockView>
    decreases blocks.len(),
{
    if blocks.len() == 0 {
        Seq::empty()
    } else {
        let rest = missing_blocks(blocks.drop_last(), present, zero_hash);
        if blocks.last().sha256 == zero_hash || present[blocks.len() - 1] {
            rest
        } else {
            rest.push(blocks.last())
        }
    }
}

/// What is missing of two lists of blocks is what is missing of each, one after the other.
pub proof fn lemma_missing_of_two(
    a: Seq<BlockView>,
    b: Seq<BlockView>,
    present_a: Seq<bool>,
    present_b: Seq<bool>,
    zero_hash: Seq<char>,
)
    requires
        a.len() == present_a.len(),
        b.len() == present_b.len(),
    ensures
        missing_blocks(a + b, present_a + present_b, zero_hash) == missing_blocks(
            a,
            present_a,
            zero_hash,
        ) + missing_blocks(b, present_b, zero_hash),
    decreases b.len(),
{
    let (all, present) = (a + b, present_a + present_b);
    if b.len() == 0 {
        assert(all =~= a);
        assert(present =~= present_a);
        assert(missing_blocks(b, present_b, zero_hash) == Seq::<BlockView>::empty());
        assert(missing_blocks(a, present_a, zero_hash) + Seq::<BlockView>::empty()
            =~= missing_blocks(a, present_a, zero_hash));
    } else {
        let (front, there) = (b.drop_last(), present_b.drop_last());
        lemma_missing_of_two(a, front, present_a, there, zero_hash);
        assert(all.drop_last() =~= a + front);
        assert(all.last() == b.last());
        assert(present[all.len() - 1] == present_b[b.len() - 1]);
        lemma_missing_looks_no_further(a + front, present, present_a + there, zero_hash);
        lemma_missing_looks_no_further(front, present_b, there, zero_hash);
        assert(missing_blocks(all, present, zero_hash) =~= missing_blocks(a, present_a, zero_hash)
            + missing_blocks(b, present_b, zero_hash));
    }
}

proof fn lemma_missing_looks_no_further(
    blocks: Seq<BlockView>,
    x: Seq<bool>,
    y: Seq<bool>,
    zero_hash: Seq<char>,
)
    requires
        forall|i: int| 0 <= i < blocks.len() ==> x[i] == y[i],
    ensures
        missing_blocks(blocks, x, zero_hash) == missing_blocks(blocks, y, zero_hash),
    decreases blocks.len(),
{
    if blocks.len() > 0 {
        lemma_missing_looks_no_further(blocks.drop_last(), x, y, zero_hash);
    }
}

/// A single block is missing exactly when the server does not have it and it is no full
/// block of zeros.
pub proof fn lemma_missing_of_one(block: BlockView, present: bool, zero_hash: Seq<char>)
    ensures
        missing_blocks(seq![block], seq![present], zero_hash) == (if present || block.sha256
            == zero_hash {
            Seq::<BlockView>::empty()
        } else {
            seq![block]
        }),
{
    let one = seq![block];
    assert(one.drop_last() =~= Seq::<BlockView>::empty());
    assert(missing_blocks(one.drop_last(), seq![present], zero_hash)
        == Seq::<BlockView>::empty());
    assert(Seq::<BlockView>::empty().push(block) =~= one);
}

/// Only what the server lacks is asked for, and all of it: a digest is among those that are
/// missing exactly when some block has it that the server does not have and that is no full
/// block of zeros.
pub proof fn lemma_only_missing_is_asked(
    blocks: Seq<BlockView>,
    present: Seq<bool>,
    zero_hash: Seq<char>,
    h: Seq<char>,
)
    ensures
        hashes(missing_blocks(blocks, present, zero_hash)).contains(h) <==> exists|i: int|
            0 <= i < blocks.len() && #[trigger] blocks[i].sha256 == h && !present[i] && h
                != zero_hash,
    decreases blocks.len(),
{
    let all = missing_blocks(blocks, present, zero_hash);
    if blocks.len() > 0 {
        let front = blocks.drop_last();
        let rest = missing_blocks(front, present, zero_hash);
        let n = blocks.len() - 1;
        lemma_only_missing_is_asked(front, present, zero_hash, h);
        if hashes(all).contains(h) {
            let k = choose|k: int| 0 <= k < hashes(all).len() && hashes(all)[k] == h;
            if k < rest.len() {
                assert(hashes(rest)[k] == h);
                assert(hashes(rest).contains(h));
                let i = choose|i: int|
                    0 <= i < front.len() && #[trigger] front[i].sha256 == h && !present[i] && h
                        != zero_hash;
                assert(blocks[i].sha256 == h);
            } else {
                assert(blocks[n].sha256 == h);
            }
        }
        if exists|i: int|
            0 <= i < blocks.len() && #[trigger] blocks[i].sha256 == h && !present[i] && h
                != zero_hash {
            let i = choose|i: int|
                0 <= i < blocks.len() && #[trigger] blocks[i].sha256 == h && !present[i] && h
                    != zero_hash;
            if i < n {
                assert(front[i].sha256 == h);
                assert(hashes(rest).contains(h));
                let k = choose|k: int| 0 <= k < hashes(rest).len() && hashes(rest)[k] == h;
                assert(hashes(all)[k] == h);
            } else {
                assert(hashes(all)[all.len() - 1] == h);
            }
        }
    } else {
        assert(hashes(all).len() == 0);
    }
}

/// The places of the blocks that need not be sent: the server has them, or they are full
/// blocks of zeros.
pub open spec fn known_places(
    blocks: Seq<BlockView>,
    present: Seq<bool>,
    zero_hash: Seq<char>,
) -> Set<int> {
    Set::new(
        |i: int|
            0 <= i < blocks.len() && (present[i] || blocks[i].sha256 == zero_hash),
    )
}

/// Every block is either known or missing.
pub proof fn lemma_known_and_missing(
    blocks: Seq<BlockView>,
    present: Seq<bool>,
    zero_hash: Seq<char>,
)
    ensures
        known_places(blocks, present, zero_hash).finite(),
        known_places(blocks, present, zero_hash).len() + missing_blocks(
            blocks,
            present,
            zero_hash,
        ).len() == blocks.len(),
    decreases blocks.len(),
{
    let known = known_places(blocks, present, zero_hash);
    if blocks.len() == 0 {
        assert(known =~= Set::<int>::empty());
    } else {
        let front = blocks.drop_last();
        let n = blocks.len() - 1;
        let before = known_places(front, present, zero_hash);
        lemma_known_and_missing(front, present, zero_hash);
        assert(forall|i: int| 0 <= i < n ==> front[i] == blocks[i]);
        if present[n] || blocks[n].sha256 == zero_hash {
            assert(known =~= before.insert(n));
            assert(!before.contains(n));
        } else {
            assert(known =~= before);
        }
    }
}

/// The size of two lists is the sum of their sizes, and that of a single block is its length.
pub proof fn lemma_total_len(a: Seq<BlockView>, b: Seq<BlockView>, block: BlockView)
    ensures
        total_len(a + b) == total_len(a) + total_len(b),
        total_len(seq![block]) == block.len,
        total_len(Seq::empty()) == 0,
    decreases b.len(),
{
    assert(seq![block].drop_last() =~= Seq::<BlockView>::empty());
    assert(total_len(Seq::<BlockView>::empty()) == 0);
    if b.len() == 0 {
        assert(a + b =~= a);
    } else {
        lemma_total_len(a, b.drop_last(), block);
        assert((a + b).drop_last() =~= a + b.drop_last());
        assert((a + b).last() == b.last());
    }
}

/// The size of two lists is the sum of their sizes, and that of a single file is its length.
pub proof fn lemma_total_file_len(a: Seq<FileView>, b: Seq<FileView>, file: FileView)
    ensures
        total_file_len(a + b) == total_file_len(a) + total_file_len(b),
        total_file_len(seq![file]) == file.len,
        total_file_len(Seq::empty()) == 0,
    decreases b.len(),
{
    assert(seq![file].drop_last() =~= Seq::<FileView>::empty());
    assert(total_file_len(Seq::<FileView>::empty()) == 0);
    if b.len() == 0 {
        assert(a + b =~= a);
    } else {
        lemma_total_file_len(a, b.drop_last(), file);
        assert((a + b).drop_last() =~= a + b.drop_last());
        assert((a + b).last() == b.last());
    }
}

/// The blocks of two lists of files are those of both, in order, and those of a single file
/// are its own.
pub proof fn lemma_all_blocks(a: Seq<FileView>, b: Seq<FileView>, file: FileView)
    ensures
        all_blocks(a + b) == all_blocks(a) + all_blocks(b),
        all_blocks(seq![file]) == file.blocks,
        all_blocks(Seq::empty()) == Seq::<BlockView>::empty(),
    decreases b.len(),
{
    assert(seq![file].drop_last() =~= Seq::<FileView>::empty());
    assert(all_blocks(Seq::<FileView>::empty()) == Seq::<BlockView>::empty());
    assert(Seq::<BlockView>::empty() + file.blocks =~= file.blocks);
    if b.len() == 0 {
        assert(a + b =~= a);
        assert(all_blocks(a) + all_blocks(b) =~= all_blocks(a));
    } else {
        lemma_all_blocks(a, b.drop_last(), file);
        assert((a + b).drop_last() =~= a + b.drop_last());
        assert((a + b).last() == b.last());
        assert(all_blocks(a + b) =~= all_blocks(a) + all_blocks(b));
    }
}

/// The size of blocks.
pub open spec fn total_len(blocks: Seq<BlockView>) -> nat
    decreases blocks.len(),
{
    if blocks.len() == 0 {
        0
    } else {
        total_len(blocks.drop_last()) + blocks.last().len as nat
    }
}

/// The size of files.
pub open spec fn total_file_len(files: Seq<FileView>) -> nat
    decreases files.len(),
{
    if files.len() == 0 {
        0
    } else {
        total_file_len(files.drop_last()) + files.last().len as nat
    }
}

/// A size, or the largest number where it is larger.
pub open spec fn capped(n: nat) -> nat {
    if n > u64::MAX {
        u64::MAX as nat
    } else {
        n
    }
}

/// The digests of blocks.
pub open spec fn hashes(blocks: Seq<BlockView>) -> Seq<Seq<char>> {
    Seq::new(blocks.len(), |i: int| blocks[i].sha256)
}

/// What an upload has to send.
#[derive(Debug, PartialEq, Eq)]
pub struct Negotiation {
    pub missing: Vec<String>,
    pub known_blocks: usize,
    pub logical_bytes: u64,
    pub missing_bytes: u64,
}

fn add_capped(a: u64, b: u64) -> (r: u64)
    ensures
        r == capped((a + b) as nat),
{
    if a > u64::MAX - b {
        u64::MAX
    } else {
        a + b
    }
}

fn logical_size(manifest: &CasUploadManifest) -> (n: u64)
    ensures
        n == capped(total_file_len(file_views(manifest.files@))),
{
    let ghost files = file_views(manifest.files@);
    let mut n: u64 = 0;
    let mut i: usize = 0;
    assert(files.take(0) =~= Seq::<FileView>::empty());
    while i < manifest.files.len()
        invariant
            i <= manifest.files@.len(),
            files == file_views(manifest.files@),
            n == capped(total_file_len(files.take(i as int))),
        decreases manifest.files@.len() - i,
    {
        proof {
            assert(files.take(i + 1).drop_last() =~= files.take(i as int));
            assert(files.take(i + 1).last() == manifest.files@[i as int]@);
        }
        n = add_capped(n, manifest.files[i].len);
        i = i + 1;
    }
    assert(files.take(i as int) =~= files);
    n
}

/// Says what an upload has to send. `blocks` are the blocks of the manifest that differ,
/// and `present` says which of them the server has.
pub fn negotiate_with(
    manifest: &CasUploadManifest,
    blocks: &Vec<CasManifestBlock>,
    present: &Vec<bool>,
    zero_hash: &str,
) -> (r: Negotiation)
    requires
        blocks@.len() == present@.len(),
    ensures
        ({
            let missing = missing_blocks(block_views(blocks@), present@, zero_hash@);
            &&& text::views(r.missing@) == hashes(missing)
            &&& r.known_blocks == blocks@.len() - missing.len()
            &&& r.logical_bytes == capped(total_file_len(file_views(manifest.files@)))
            &&& r.missing_bytes == capped(total_len(missing))
        }),
        forall|h: Seq<char>| #[trigger]
            text::views(r.missing@).contains(h) <==> exists|i: int|
                0 <= i < blocks@.len() && #[trigger] block_views(blocks@)[i].sha256 == h
                    && !present@[i] && h != zero_hash@,
        r.known_blocks == known_places(block_views(blocks@), present@, zero_hash@).len(),
        r.known_blocks + r.missing@.len() == blocks@.len(),
{
    proof {
        assert forall|h: Seq<char>| #[trigger]
            hashes(missing_blocks(block_views(blocks@), present@, zero_hash@)).contains(h)
                <==> exists|i: int|
                0 <= i < blocks@.len() && #[trigger] block_views(blocks@)[i].sha256 == h
                    && !present@[i] && h != zero_hash@ by {
            lemma_only_missing_is_asked(block_views(blocks@), present@, zero_hash@, h);
        }
        lemma_known_and_missing(block_views(blocks@), present@, zero_hash@);
    }
    let ghost all = block_views(blocks@);
    let mut missing: Vec<String> = Vec::new();
    let mut known_blocks: usize = 0;
    let mut missing_bytes: u64 = 0;
    let mut i: usize = 0;
    assert(all.take(0) =~= Seq::<BlockView>::empty());
    assert(text::views(missing@) =~= hashes(Seq::<BlockView>::empty()));
    while i < blocks.len()
        invariant
            i <= blocks@.len() == present@.len(),
            all == block_views(blocks@),
            text::views(missing@) == hashes(
                missing_blocks(all.take(i as int), present@, zero_hash@),
            ),
            known_blocks == i - missing_blocks(all.take(i as int), present@, zero_hash@).len(),
            known_blocks <= i,
            missing_bytes == capped(
                total_len(missing_blocks(all.take(i as int), present@, zero_hash@)),
            ),
        decreases blocks@.len() - i,
    {
        let block: &CasManifestBlock = &blocks[i];
        let ghost before = missing_blocks(all.take(i as int), present@, zero_hash@);
        let ghost after = missing_blocks(all.take(i + 1), present@, zero_hash@);
        proof {
            assert(all.take(i + 1).drop_last() =~= all.take(i as int));
            assert(all.take(i + 1).last() == block@);
        }
        if text::same(block.sha256.as_str(), zero_hash) || present[i] {
            known_blocks = known_blocks + 1;
        } else {
            let ghost sent = text::views(missing@);
            missing_bytes = add_capped(missing_bytes, block.len);
            missing.push(block.sha256.clone());
            proof {
                assert(after == before.push(block@));
                assert(after.drop_last() =~= before);
                assert(text::views(missing@) =~= sent.push(block.sha256@));
                assert(hashes(after) =~= hashes(before).push(block.sha256@));
            }
        }
        i = i + 1;
    }
    assert(all.take(i as int) =~= all);
    Negotiation { missing, known_blocks, logical_bytes: logical_size(manifest), missing_bytes }
}

/// Says what an upload has to send, for the blocks of the manifest that differ.
pub fn negotiate(
    manifest: &CasUploadManifest,
    blocks: &Vec<CasManifestBlock>,
    present: &Vec<bool>,
) -> (r: Negotiation)
    requires
        blocks@.len() == present@.len(),
    ensures
        ({
            let missing = missing_blocks(
                block_views(blocks@),
                present@,
                digest::hex_of(digest::sha256_of(digest::zero_block())),
            );
            &&& text::views(r.missing@) == hashes(missing)
            &&& r.known_blocks == blocks@.len() - missing.len()
            &&& r.logical_bytes == capped(total_file_len(file_views(manifest.files@)))
            &&& r.missing_bytes == capped(total_len(missing))
        }),
        forall|h: Seq<char>| #[trigger]
            text::views(r.missing@).contains(h) <==> exists|i: int|
                0 <= i < blocks@.len() && #[trigger] block_views(blocks@)[i].sha256 == h
                    && !present@[i] && h != digest::hex_of(
                    digest::sha256_of(digest::zero_block()),
                ),
        r.known_blocks == known_places(
            block_views(blocks@),
            present@,
            digest::hex_of(digest::sha256_of(digest::zero_block())),
        ).len(),
        r.known_blocks + r.missing@.len() == blocks@.len(),
{
    negotiate_with(manifest, blocks, present, digest::zero_block_hash().as_str())
}

/// Of the blocks that differ, no two have the same digest, so none is sent twice; and
/// every block of the manifest has the digest of one of them.
pub proof fn lemma_distinct_blocks_cover(blocks: Seq<BlockView>)
    ensures
        forall|i: int, j: int|
            0 <= i < j < distinct(blocks).len() ==> (#[trigger] distinct(blocks)[i]).sha256 != (
            #[trigger] distinct(blocks)[j]).sha256,
        forall|h: Seq<char>| #[trigger] names_one(blocks, h) == names_one(distinct(blocks), h),
    decreases blocks.len(),
{
    let d = distinct(blocks);
    if blocks.len() > 0 {
        let front = blocks.drop_last();
        let last = blocks.last();
        let e = distinct(front);
        lemma_distinct_blocks_cover(front);
        assert forall|h: Seq<char>| #[trigger] names_one(blocks, h) == names_one(d, h) by {
            assert(names_one(front, h) == names_one(e, h));
            if names_one(blocks, h) {
                let k = choose|k: int| 0 <= k < blocks.len() && #[trigger] blocks[k].sha256 == h;
                if k < front.len() {
                    assert(front[k].sha256 == h);
                    let m = choose|m: int| 0 <= m < e.len() && #[trigger] e[m].sha256 == h;
                    assert(d[m].sha256 == h);
                } else if names_one(front, h) {
                    let m = choose|m: int| 0 <= m < e.len() && #[trigger] e[m].sha256 == h;
                    assert(d[m].sha256 == h);
                } else {
                    assert(d[d.len() - 1].sha256 == h);
                }
            }
            if names_one(d, h) {
                let m = choose|m: int| 0 <= m < d.len() && #[trigger] d[m].sha256 == h;
                if m < e.len() {
                    assert(e[m].sha256 == h);
                    let k = choose|k: int| 0 <= k < front.len() && #[trigger] front[k].sha256 == h;
                    assert(blocks[k].sha256 == h);
                } else {
                    assert(blocks[blocks.len() - 1].sha256 == h);
                }
            }
        }
        assert forall|i: int, j: int| 0 <= i < j < d.len() implies (#[trigger] d[i]).sha256 != (
        #[trigger] d[j]).sha256 by {
            if j < e.len() {
                assert(e[i].sha256 != e[j].sha256);
            } else if d[i].sha256 == d[j].sha256 {
                assert(e[i].sha256 == last.sha256);
                assert(names_one(e, last.sha256));
                assert(names_one(front, last.sha256));
            }
        }
    } else {
        assert forall|h: Seq<char>| #[trigger] names_one(blocks, h) == names_one(d, h) by {
            assert(blocks =~= d);
        }
    }
}

/// Every block that the server has to have is a full block of zeros, is there already, or
/// is among those that are sent.
pub proof fn lemma_nothing_is_left_out(
    blocks: Seq<BlockView>,
    present: Seq<bool>,
    zero_hash: Seq<char>,
    i: int,
)
    requires
        blocks.len() <= present.len(),
        0 <= i < blocks.len(),
    ensures
        blocks[i].sha256 == zero_hash || present[i] || missing_blocks(
            blocks,
            present,
            zero_hash,
        ).contains(blocks[i]),
    decreases blocks.len(),
{
    let all = missing_blocks(blocks, present, zero_hash);
    let front = blocks.drop_last();
    let rest = missing_blocks(front, present, zero_hash);
    if i < front.len() {
        lemma_nothing_is_left_out(front, present, zero_hash, i);
        assert(front[i] == blocks[i]);
        if rest.contains(blocks[i]) {
            let k = choose|k: int| 0 <= k < rest.len() && rest[k] == blocks[i];
            assert(all[k] == blocks[i]);
        }
    } else if blocks[i].sha256 != zero_hash && !present[i] {
        assert(all.last() == blocks[i]);
    }
}

// ---------------------------------------------------------------------------
// Cutting files into blocks
// ---------------------------------------------------------------------------

/// A part of a file.
#[derive(Clone, Copy, PartialEq, Eq, Structural, Debug)]
pub struct Span {
    pub offset: u64,
    pub len: u64,
}

/// The pieces of a part of a file: full blocks, and what is left.
pub open spec fn pieces(offset: int, len: int) -> Seq<Span>
    decreases len,
{
    if len <= 0 {
        Seq::empty()
    } else if len <= CAS_BLOCK_SIZE {
        seq![Span { offset: offset as u64, len: len as u64 }]
    } else {
        seq![Span { offset: offset as u64, len: CAS_BLOCK_SIZE }] + pieces(
            offset + CAS_BLOCK_SIZE,
            len - CAS_BLOCK_SIZE,
        )
    }
}

/// Cuts a part of a file into blocks.
pub fn block_pieces(offset: u64, len: u64) -> (r: Vec<Span>)
    requires
        offset + len <= u64::MAX,
    ensures
        r@ == pieces(offset as int, len as int),
{
    let mut r: Vec<Span> = Vec::new();
    let mut at: u64 = offset;
    let mut left: u64 = len;
    assert(r@ + pieces(at as int, left as int) =~= pieces(offset as int, len as int));
    while left > 0
        invariant
            at + left == offset + len,
            offset + len <= u64::MAX,
            r@ + pieces(at as int, left as int) == pieces(offset as int, len as int),
        decreases left,
    {
        let n: u64 = if left < CAS_BLOCK_SIZE {
            left
        } else {
            CAS_BLOCK_SIZE
        };
        let ghost before = r@;
        let piece: Span = Span { offset: at, len: n };
        r.push(piece);
        proof {
            let rest = pieces(at + n, left - n);
            assert(pieces(at as int, left as int) =~= seq![piece] + rest);
            assert(before + (seq![piece] + rest) =~= r@ + rest);
        }
        at = at + n;
        left = left - n;
    }
    assert(r@ + Seq::<Span>::empty() =~= r@);
    r
}

/// The pieces of several parts of a file, in order.
pub open spec fn all_pieces(extents: Seq<Span>) -> Seq<Span>
    decreases extents.len(),
{
    if extents.len() == 0 {
        Seq::empty()
    } else {
        all_pieces(extents.drop_last()) + pieces(
            extents.last().offset as int,
            extents.last().len as int,
        )
    }
}

/// Cuts several parts of a file into blocks.
pub fn extent_pieces(extents: &Vec<Span>) -> (r: Vec<Span>)
    requires
        forall|i: int|
            0 <= i < extents@.len() ==> (#[trigger] extents@[i]).offset + extents@[i].len
                <= u64::MAX,
    ensures
        r@ == all_pieces(extents@),
{
    let mut r: Vec<Span> = Vec::new();
    let mut i: usize = 0;
    assert(extents@.take(0) =~= Seq::<Span>::empty());
    while i < extents.len()
        invariant
            i <= extents@.len(),
            forall|k: int|
                0 <= k < extents@.len() ==> (#[trigger] extents@[k]).offset + extents@[k].len
                    <= u64::MAX,
            r@ == all_pieces(extents@.take(i as int)),
        decreases extents@.len() - i,
    {
        proof {
            assert(extents@.take(i + 1).drop_last() =~= extents@.take(i as int));
            assert(extents@.take(i + 1).last() == extents@[i as int]);
        }
        let mut own: Vec<Span> = block_pieces(extents[i].offset, extents[i].len);
        r.append(&mut own);
        i = i + 1;
    }
    assert(extents@.take(i as int) =~= extents@);
    r
}

/// The pieces of a part of a file cover it, and nothing else; none is empty or too large.
pub proof fn lemma_pieces_cover(offset: int, len: int, p: int)
    requires
        0 <= offset,
        0 <= len,
        offset + len <= u64::MAX,
    ensures
        (offset <= p < offset + len) == exists|i: int|
            0 <= i < pieces(offset, len).len() && (#[trigger] pieces(offset, len)[i]).offset <= p
                < pieces(offset, len)[i].offset + pieces(offset, len)[i].len,
        forall|i: int|
            0 <= i < pieces(offset, len).len() ==> {
                let b = #[trigger] pieces(offset, len)[i];
                0 < b.len <= CAS_BLOCK_SIZE && offset <= b.offset && b.offset + b.len <= offset
                    + len
            },
    decreases len,
{
    let all = pieces(offset, len);
    if len > CAS_BLOCK_SIZE {
        let rest = pieces(offset + CAS_BLOCK_SIZE, len - CAS_BLOCK_SIZE);
        lemma_pieces_cover(offset + CAS_BLOCK_SIZE, len - CAS_BLOCK_SIZE, p);
        assert forall|i: int| 0 <= i < all.len() implies {
            let b = #[trigger] all[i];
            0 < b.len <= CAS_BLOCK_SIZE && offset <= b.offset && b.offset + b.len <= offset + len
        } by {
            if i > 0 {
                assert(all[i] == rest[i - 1]);
            }
        }
        if offset <= p < offset + CAS_BLOCK_SIZE {
            assert(all[0].offset <= p < all[0].offset + all[0].len);
        } else if offset <= p < offset + len {
            let i = choose|i: int|
                0 <= i < rest.len() && (#[trigger] rest[i]).offset <= p < rest[i].offset
                    + rest[i].len;
            assert(all[i + 1] == rest[i]);
        }
    } else if len > 0 {
        assert(all[0].offset == offset && all[0].len == len);
    }
}

proof fn lemma_pieces_in_order(offset: int, len: int)
    requires
        0 <= offset,
        0 <= len,
        offset + len <= u64::MAX,
    ensures
        forall|i: int, j: int|
            0 <= i < j < pieces(offset, len).len() ==> (#[trigger] pieces(offset, len)[i]).offset
                + pieces(offset, len)[i].len <= (#[trigger] pieces(offset, len)[j]).offset,
    decreases len,
{
    let all = pieces(offset, len);
    if len > CAS_BLOCK_SIZE {
        let rest = pieces(offset + CAS_BLOCK_SIZE, len - CAS_BLOCK_SIZE);
        lemma_pieces_in_order(offset + CAS_BLOCK_SIZE, len - CAS_BLOCK_SIZE);
        lemma_pieces_cover(offset + CAS_BLOCK_SIZE, len - CAS_BLOCK_SIZE, 0);
        assert forall|i: int, j: int| 0 <= i < j < all.len() implies (#[trigger] all[i]).offset
            + all[i].len <= (#[trigger] all[j]).offset by {
            assert(all[j] == rest[j - 1]);
            if i > 0 {
                assert(all[i] == rest[i - 1]);
            }
        }
    }
}

/// The pieces of extents that are in order are in order, and lie where the extents lie; none
/// is empty or too large.
pub proof fn lemma_all_pieces_in_order(extents: Seq<Span>, end: u64)
    requires
        sparse::are_ordered(extents, end),
    ensures
        forall|i: int|
            0 <= i < all_pieces(extents).len() ==> {
                let piece = #[trigger] all_pieces(extents)[i];
                0 < piece.len <= CAS_BLOCK_SIZE && piece.offset + piece.len <= end
            },
        forall|i: int, j: int|
            0 <= i < j < all_pieces(extents).len() ==> (#[trigger] all_pieces(extents)[i]).offset
                + all_pieces(extents)[i].len <= (#[trigger] all_pieces(extents)[j]).offset,
    decreases extents.len(),
{
    if extents.len() > 0 {
        let all = all_pieces(extents);
        let front = extents.drop_last();
        let last = extents.last();
        let before = all_pieces(front);
        let own = pieces(last.offset as int, last.len as int);
        assert(extents[extents.len() - 1] == last);
        assert(sparse::are_ordered(front, last.offset)) by {
            assert forall|i: int| 0 <= i < front.len() implies (#[trigger] front[i]).len > 0
                && front[i].offset + front[i].len <= last.offset by {
                assert(front[i] == extents[i]);
            }
            assert forall|i: int, j: int| 0 <= i < j < front.len() implies (
            #[trigger] front[i]).offset + front[i].len <= (#[trigger] front[j]).offset by {
                assert(front[i] == extents[i] && front[j] == extents[j]);
            }
        }
        lemma_all_pieces_in_order(front, last.offset);
        lemma_pieces_in_order(last.offset as int, last.len as int);
        lemma_pieces_cover(last.offset as int, last.len as int, 0);
        assert forall|i: int| 0 <= i < all.len() implies ({
            let piece = #[trigger] all[i];
            0 < piece.len <= CAS_BLOCK_SIZE && piece.offset + piece.len <= end
        }) by {
            if i < before.len() {
                assert(all[i] == before[i]);
            } else {
                assert(all[i] == own[i - before.len()]);
            }
        }
        assert forall|i: int, j: int| 0 <= i < j < all.len() implies (#[trigger] all[i]).offset
            + all[i].len <= (#[trigger] all[j]).offset by {
            if j < before.len() {
                assert(all[i] == before[i] && all[j] == before[j]);
            } else if i < before.len() {
                assert(all[i] == before[i] && all[j] == own[j - before.len()]);
            } else {
                assert(all[i] == own[i - before.len()] && all[j] == own[j - before.len()]);
            }
        }
    }
}

/// Whether blocks are those of pieces of a file: each lies where its piece lies, and is
/// named by a digest.
pub open spec fn are_blocks_for(blocks: Seq<BlockView>, parts: Seq<Span>) -> bool {
    blocks.len() == parts.len() && forall|i: int|
        0 <= i < blocks.len() ==> {
            let b = #[trigger] blocks[i];
            b.offset == parts[i].offset && b.len == parts[i].len && digest::is_sha256_hex(b.sha256)
        }
}

/// The blocks for the pieces of extents that are in order and in the file are valid.
pub proof fn lemma_blocks_for_are_valid(file_len: u64, extents: Seq<Span>, blocks: Seq<BlockView>)
    requires
        sparse::are_ordered(extents, file_len),
        are_blocks_for(blocks, all_pieces(extents)),
    ensures
        are_valid_blocks(file_len, blocks),
{
    let parts = all_pieces(extents);
    lemma_all_pieces_in_order(extents, file_len);
    assert forall|i: int, j: int| 0 <= i < j < blocks.len() implies (#[trigger] blocks[i]).offset
        + blocks[i].len <= (#[trigger] blocks[j]).offset by {
        assert(parts[i].offset + parts[i].len <= parts[j].offset);
    }
}

/// Where a block of the upload is read from.
#[derive(Debug, PartialEq, Eq)]
pub struct CasBlockSource {
    pub path: String,
    pub offset: u64,
    pub len: u64,
}

/// Where the blocks of an upload are read from.
pub struct BlockIndex {
    sources: StringHashMap<CasBlockSource>,
}

impl BlockIndex {
    /// Where each block is read from, by its digest.
    pub closed spec fn map(self) -> Map<Seq<char>, CasBlockSource> {
        self.sources@
    }

    /// An index without blocks.
    pub fn new() -> (r: BlockIndex)
        ensures
            r.map() == Map::<Seq<char>, CasBlockSource>::empty(),
    {
        BlockIndex { sources: StringHashMap::new() }
    }

    /// Adds a piece of a file that holds these bytes, and gives the block of the manifest
    /// for it. A block that is known already stays where it is read from.
    pub fn add(&mut self, path: &str, piece: Span, raw: &[u8]) -> (b: CasManifestBlock)
        ensures
            b@ == (BlockView {
                offset: piece.offset,
                len: piece.len,
                sha256: digest::hex_of(digest::sha256_of(raw@)),
            }),
            digest::is_sha256_hex(b.sha256@),
            old(self).map().contains_key(b.sha256@) ==> final(self).map() == old(self).map(),
            !old(self).map().contains_key(b.sha256@) ==> exists|s: CasBlockSource|
                s.path@ == path@ && s.offset == piece.offset && s.len == piece.len
                    && final(self).map() == #[trigger] old(self).map().insert(b.sha256@, s),
    {
        let sha256: String = digest::sha256_hex(raw);
        if !self.sources.contains_key(sha256.as_str()) {
            let source: CasBlockSource = CasBlockSource {
                path: path.to_owned(),
                offset: piece.offset,
                len: piece.len,
            };
            self.sources.insert(sha256.clone(), source);
        }
        CasManifestBlock { offset: piece.offset, len: piece.len, sha256 }
    }

    /// Where a block is read from.
    pub fn get(&self, sha256: &str) -> (r: Option<&CasBlockSource>)
        ensures
            match r {
                Some(s) => self.map().contains_key(sha256@) && *s == self.map()[sha256@],
                None => !self.map().contains_key(sha256@),
            },
    {
        self.sources.get(sha256)
    }
}

/// The digest under which a piece of an imported file is stored, so that a later upload
/// finds it. A piece of zeros is not stored.
pub fn indexed_block(raw: &[u8]) -> (r: Option<String>)
    ensures
        bytes::are_zero(raw@) ==> r is None,
        !bytes::are_zero(raw@) ==> (r matches Some(sha256) && sha256@ == digest::hex_of(
            digest::sha256_of(raw@),
        )),
{
    if bytes::all_zero(raw) {
        None
    } else {
        Some(digest::sha256_hex(raw))
    }
}

/// The message for a block that the server asks for and the client does not have.
pub fn unknown_block_message(sha256: &str) -> (m: String)
    ensures
        m@ == "server requested unknown local CAS block "@ + sha256@,
{
    let mut m: String = "server requested unknown local CAS block ".to_owned();
    m.append(sha256);
    m
}

// ---------------------------------------------------------------------------
// Storing blocks
// ---------------------------------------------------------------------------

/// Where the server keeps its blocks.
pub fn cas_root(base: &str) -> (p: String)
    ensures
        p@ == paths::joined(paths::joined(base@, "cas"@), "sha256"@),
{
    paths::join(paths::join(base, "cas").as_str(), "sha256")
}

/// Where the server keeps its uploads.
pub fn cas_uploads_root(base: &str) -> (p: String)
    ensures
        p@ == paths::joined(base@, "uploads"@),
{
    paths::join(base, "uploads")
}

/// Where the server keeps an upload.
pub fn cas_session_dir(base: &str, session: &str) -> (r: Result<String, names::NameError>)
    ensures
        r is Ok <==> names::is_session_id(session@),
        r matches Ok(p) ==> p@ == paths::joined(paths::joined(base@, "uploads"@), session@),
        r matches Err(e) ==> e matches names::NameError::Session { id } && id@ == session@,
{
    match names::validate_session_id(session) {
        Err(e) => Err(e),
        Ok(()) => Ok(paths::join(cas_uploads_root(base).as_str(), session)),
    }
}

/// Where the server keeps a block.
pub open spec fn block_path(base: Seq<char>, sha256: Seq<char>) -> Seq<char> {
    paths::joined(
        paths::joined(paths::joined(paths::joined(base, "cas"@), "sha256"@), sha256.take(2)),
        sha256,
    )
}

/// Where the server keeps a block.
pub fn cas_block_path(base: &str, sha256: &str) -> (r: Result<String, digest::InvalidSha256>)
    ensures
        r is Ok <==> digest::is_sha256_hex(sha256@),
        r matches Ok(p) ==> p@ == block_path(base@, sha256@),
        r matches Err(e) ==> e.value@ == sha256@,
{
    match digest::validate_sha256_hex(sha256) {
        Err(e) => Err(e),
        Ok(()) => {
            let prefix: &str = sha256.substring_char(0, 2);
            assert(sha256@.subrange(0, 2) =~= sha256@.take(2));
            let dir: String = paths::join(cas_root(base).as_str(), prefix);
            Ok(paths::join(dir.as_str(), sha256))
        },
    }
}

/// Why a block is not stored.
#[derive(Debug, PartialEq, Eq)]
pub enum StoreError {
    Hash { value: String },
    TooLarge { len: usize },
    Mismatch { expected: String, actual: String },
}

impl StoreError {
    /// The message shown to the user.
    pub open spec fn text(self) -> Seq<char> {
        match self {
            StoreError::Hash { value } => "invalid sha256 hex: "@ + value@,
            StoreError::TooLarge { len } => "CAS block is too large: "@ + text::dec(len as nat)
                + " bytes"@,
            StoreError::Mismatch { expected, actual } => "CAS block hash mismatch: expected "@
                + expected@ + ", got "@ + actual@,
        }
    }

    /// The message shown to the user.
    pub fn message(&self) -> (m: String)
        ensures
            m@ == self.text(),
    {
        match self {
            StoreError::Hash { value } => {
                let mut m: String = "invalid sha256 hex: ".to_owned();
                m.append(value.as_str());
                m
            },
            StoreError::TooLarge { len } => {
                let mut m: String = "CAS block is too large: ".to_owned();
                text::push_dec(&mut m, *len as u128);
                m.append(" bytes");
                m
            },
            StoreError::Mismatch { expected, actual } => {
                let mut m: String = "CAS block hash mismatch: expected ".to_owned();
                m.append(expected.as_str());
                m.append(", got ");
                m.append(actual.as_str());
                m
            },
        }
    }
}

/// What the server does with a block that it is sent.
#[derive(Clone, Copy, PartialEq, Eq, Structural, Debug)]
pub enum StoreStep {
    /// A full block of zeros is never stored.
    Skip,
    /// Write it, unless it is there already.
    Write,
}

/// Whether an error says why a block with an actual digest is not stored under a name.
pub open spec fn is_store_error(
    sha256: Seq<char>,
    raw: Seq<u8>,
    actual: Seq<char>,
    e: StoreError,
) -> bool {
    if !digest::is_sha256_hex(sha256) {
        e matches StoreError::Hash { value } && value@ == sha256
    } else if raw.len() > CAS_BLOCK_SIZE {
        e matches StoreError::TooLarge { len } && len == raw.len()
    } else {
        e matches StoreError::Mismatch { expected, actual: a } && expected@ == sha256 && a@
            == actual && actual != sha256
    }
}

/// Decides what the server does with a block that it is sent under a name, given its
/// digest and that of a full block of zeros.
pub fn store_decision(sha256: &str, raw: &[u8], actual: &str, zero_hash: &str) -> (r: Result<
    StoreStep,
    StoreError,
>)
    ensures
        r is Ok <==> digest::is_sha256_hex(sha256@) && raw@.len() <= CAS_BLOCK_SIZE && actual@
            == sha256@,
        r matches Ok(step) ==> step == (if sha256@ == zero_hash@ {
            StoreStep::Skip
        } else {
            StoreStep::Write
        }),
        r matches Err(e) ==> is_store_error(sha256@, raw@, actual@, e),
{
    if !digest::sha256_hex_is_valid(sha256) {
        return Err(StoreError::Hash { value: sha256.to_owned() });
    }
    if raw.len() as u64 > CAS_BLOCK_SIZE {
        return Err(StoreError::TooLarge { len: raw.len() });
    }
    if !text::same(actual, sha256) {
        return Err(StoreError::Mismatch { expected: sha256.to_owned(), actual: actual.to_owned() });
    }
    if text::same(sha256, zero_hash) {
        Ok(StoreStep::Skip)
    } else {
        Ok(StoreStep::Write)
    }
}

/// Decides what the server does with a block that it is sent under a name: the name must
/// be its digest.
pub fn store_cas_block(sha256: &str, raw: &[u8]) -> (r: Result<StoreStep, StoreError>)
    ensures
        r is Ok <==> digest::is_sha256_hex(sha256@) && raw@.len() <= CAS_BLOCK_SIZE
            && digest::hex_of(digest::sha256_of(raw@)) == sha256@,
        r matches Ok(step) ==> step == (if sha256@ == digest::hex_of(
            digest::sha256_of(digest::zero_block()),
        ) {
            StoreStep::Skip
        } else {
            StoreStep::Write
        }),
        r matches Err(e) ==> is_store_error(
            sha256@,
            raw@,
            digest::hex_of(digest::sha256_of(raw@)),
            e,
        ),
{
    let actual: String = digest::sha256_hex(raw);
    let zero_hash: String = digest::zero_block_hash();
    store_decision(sha256, raw, actual.as_str(), zero_hash.as_str())
}

// ---------------------------------------------------------------------------
// Streams of blocks
// ---------------------------------------------------------------------------

/// A block under its name.
#[derive(Debug, PartialEq, Eq)]
pub struct BlockFrame {
    pub sha256: String,
    pub raw: Vec<u8>,
}

/// A block under its name, as plain values.
pub struct FrameView {
    pub sha256: Seq<char>,
    pub raw: Seq<u8>,
}

impl BlockFrame {
    /// The block, as plain values.
    pub open spec fn view(self) -> FrameView {
        FrameView { sha256: self.sha256@, raw: self.raw@ }
    }
}

/// Blocks under their names, as plain values.
pub open spec fn frame_views(frames: Seq<BlockFrame>) -> Seq<FrameView> {
    Seq::new(frames.len(), |i: int| frames[i].view())
}

/// A block in a stream: its digest, its length, and its bytes.
pub open spec fn frame_bytes(f: FrameView) -> Seq<u8> {
    digest::bytes_of_hex(f.sha256) + bytes::le_bytes(f.raw.len(), 4) + f.raw
}

/// Blocks in a stream.
pub open spec fn stream_bytes(frames: Seq<FrameView>) -> Seq<u8>
    decreases frames.len(),
{
    if frames.len() == 0 {
        Seq::empty()
    } else {
        frame_bytes(frames[0]) + stream_bytes(frames.skip(1))
    }
}

/// Writes a block into a stream.
pub fn write_cas_block_frame(out: &mut Vec<u8>, sha256: &str, raw: &[u8]) -> (r: Result<
    (),
    StoreError,
>)
    ensures
        r is Ok <==> digest::is_sha256_hex(sha256@) && raw@.len() <= CAS_BLOCK_SIZE,
        r is Ok ==> final(out)@ == old(out)@ + frame_bytes(
            FrameView { sha256: sha256@, raw: raw@ },
        ),
        r matches Err(e) ==> final(out)@ == old(out)@ && (if !digest::is_sha256_hex(sha256@) {
            e matches StoreError::Hash { value } && value@ == sha256@
        } else {
            e matches StoreError::TooLarge { len } && len == raw@.len()
        }),
{
    let name: Vec<u8> = match digest::bytes_from_hex(sha256) {
        Ok(name) => name,
        Err(e) => return Err(StoreError::Hash { value: e.value }),
    };
    if raw.len() as u64 > CAS_BLOCK_SIZE {
        return Err(StoreError::TooLarge { len: raw.len() });
    }
    let ghost before = out@;
    bytes::push_all(out, name.as_slice());
    bytes::push_le(out, raw.len() as u64, 4);
    bytes::push_all(out, raw);
    assert(out@ =~= before + frame_bytes(FrameView { sha256: sha256@, raw: raw@ }));
    Ok(())
}

/// Why a stream of blocks ends early.
#[derive(Debug, PartialEq, Eq)]
pub enum StreamError {
    /// It is broken where the digest of a block should be.
    NoHash,
    /// It ends in the length of a block.
    NoLength,
    Length { len: usize },
    /// It ends in the bytes of a block.
    NoPayload,
    Store(StoreError),
}

impl StreamError {
    /// The message shown to the user.
    pub open spec fn text(self) -> Seq<char> {
        match self {
            StreamError::NoHash => "read CAS block stream hash"@,
            StreamError::NoLength => "read CAS block stream length"@,
            StreamError::Length { len } => "invalid CAS block stream length: "@ + text::dec(
                len as nat,
            ),
            StreamError::NoPayload => "read CAS block stream payload"@,
            StreamError::Store(e) => e.text(),
        }
    }

    /// The message shown to the user.
    pub fn message(&self) -> (m: String)
        ensures
            m@ == self.text(),
    {
        match self {
            StreamError::NoHash => "read CAS block stream hash".to_owned(),
            StreamError::NoLength => "read CAS block stream length".to_owned(),
            StreamError::Length { len } => {
                let mut m: String = "invalid CAS block stream length: ".to_owned();
                text::push_dec(&mut m, *len as u128);
                m
            },
            StreamError::NoPayload => "read CAS block stream payload".to_owned(),
            StreamError::Store(e) => e.message(),
        }
    }
}

/// How the next block of a stream reads.
pub enum NextFrame {
    /// The stream ends: not even a digest is left.
    End,
    NoLength,
    Length(nat),
    NoPayload,
    /// A block, and how long it is in the stream.
    Frame(FrameView, nat),
}

/// How the next block of a stream reads.
pub open spec fn next_frame(s: Seq<u8>) -> NextFrame {
    let len = bytes::le_value(s.subrange(32, 36));
    if s.len() < 32 {
        NextFrame::End
    } else if s.len() < 36 {
        NextFrame::NoLength
    } else if len == 0 || len > CAS_BLOCK_SIZE {
        NextFrame::Length(len)
    } else if s.len() < 36 + len {
        NextFrame::NoPayload
    } else {
        NextFrame::Frame(
            FrameView {
                sha256: digest::hex_of(s.take(32)),
                raw: s.subrange(36, 36 + len as int),
            },
            36 + len,
        )
    }
}

/// Whether a stream goes on with a block whose bytes have the digest that it is sent
/// under.
pub open spec fn goes_on(s: Seq<u8>) -> bool {
    next_frame(s) matches NextFrame::Frame(f, n) && digest::hex_of(digest::sha256_of(f.raw))
        == f.sha256
}

/// The good blocks at the start of a stream.
pub open spec fn stream_frames(s: Seq<u8>) -> Seq<FrameView>
    decreases s.len(),
{
    match next_frame(s) {
        NextFrame::Frame(f, n) => if goes_on(s) && 0 < n <= s.len() {
            seq![f] + stream_frames(s.skip(n as int))
        } else {
            Seq::empty()
        },
        _ => Seq::empty(),
    }
}

/// What follows the good blocks at the start of a stream.
pub open spec fn stream_rest(s: Seq<u8>) -> Seq<u8>
    decreases s.len(),
{
    match next_frame(s) {
        NextFrame::Frame(f, n) => if goes_on(s) && 0 < n <= s.len() {
            stream_rest(s.skip(n as int))
        } else {
            s
        },
        _ => s,
    }
}

/// Whether an error says why a stream ends early: by what comes after its good blocks.
pub open spec fn is_stream_error(rest: Seq<u8>, e: StreamError) -> bool {
    match next_frame(rest) {
        NextFrame::End => false,
        NextFrame::NoLength => e is NoLength,
        NextFrame::Length(n) => e matches StreamError::Length { len } && len == n,
        NextFrame::NoPayload => e is NoPayload,
        NextFrame::Frame(f, _) => e matches StreamError::Store(StoreError::Mismatch {
            expected,
            actual,
        }) && expected@ == f.sha256 && actual@ == digest::hex_of(digest::sha256_of(f.raw)),
    }
}

/// What a stream of blocks holds.
#[derive(Debug, PartialEq, Eq)]
pub struct BlockStream {
    /// The blocks before it ends; they can be stored.
    pub frames: Vec<BlockFrame>,
    /// Why it ends early, if it does.
    pub error: Option<StreamError>,
}

/// Reads a stream of blocks. The blocks before an error are good.
pub fn read_cas_block_stream(stream: &[u8]) -> (r: BlockStream)
    ensures
        frame_views(r.frames@) == stream_frames(stream@),
        r.error is None <==> next_frame(stream_rest(stream@)) is End,
        r.error matches Some(e) ==> is_stream_error(stream_rest(stream@), e),
{
    let mut frames: Vec<BlockFrame> = Vec::new();
    let mut at: usize = 0;
    assert(stream@.skip(0) =~= stream@);
    assert(frame_views(frames@) + stream_frames(stream@) =~= stream_frames(stream@));
    loop
        invariant
            at <= stream@.len(),
            frame_views(frames@) + stream_frames(stream@.skip(at as int)) == stream_frames(stream@),
            stream_rest(stream@.skip(at as int)) == stream_rest(stream@),
        decreases stream@.len() - at,
    {
        let ghost rest = stream@.skip(at as int);
        let left: usize = stream.len() - at;
        assert(frame_views(frames@) + Seq::<FrameView>::empty() =~= frame_views(frames@));
        if left < 32 {
            return BlockStream { frames, error: None };
        }
        if left < 36 {
            return BlockStream { frames, error: Some(StreamError::NoLength) };
        }
        let field: Vec<u8> = bytes::part(stream, at + 32, at + 36);
        proof {
            assert(field@ =~= rest.subrange(32, 36));
            bytes::lemma_le_fits(field@);
            bytes::lemma_byte_ranges();
        }
        let len: u64 = bytes::read_le(field.as_slice());
        if len == 0 || len > CAS_BLOCK_SIZE {
            return BlockStream { frames, error: Some(StreamError::Length { len: len as usize }) };
        }
        if ((left - 36) as u64) < len {
            return BlockStream { frames, error: Some(StreamError::NoPayload) };
        }
        let end: usize = at + 36 + len as usize;
        let name: Vec<u8> = bytes::part(stream, at, at + 32);
        let raw: Vec<u8> = bytes::part(stream, at + 36, end);
        let sha256: String = digest::hex_from_bytes(name.as_slice());
        proof {
            assert(name@ =~= rest.take(32));
            assert(raw@ =~= rest.subrange(36, 36 + len as int));
            assert(name@.len() == 32);
            digest::lemma_digest_hex_is_valid(name@);
            assert(rest.skip(36 + len as int) =~= stream@.skip(end as int));
        }
        match store_cas_block(sha256.as_str(), raw.as_slice()) {
            Err(e) => {
                return BlockStream { frames, error: Some(StreamError::Store(e)) };
            },
            Ok(_) => {},
        }
        let ghost before = frame_views(frames@);
        let frame: BlockFrame = BlockFrame { sha256, raw };
        frames.push(frame);
        proof {
            assert(frame_views(frames@) =~= before.push(frame@));
            let more = stream_frames(stream@.skip(end as int));
            assert(before + (seq![frame@] + more) =~= frame_views(frames@) + more);
        }
        at = end;
    }
}

/// Whether a block can be sent: it is not empty or too large, and its name is its digest.
pub open spec fn is_sendable(f: FrameView) -> bool {
    &&& 0 < f.raw.len() <= CAS_BLOCK_SIZE
    &&& digest::sha256_of(f.raw).len() == 32
    &&& f.sha256 == digest::hex_of(digest::sha256_of(f.raw))
}

/// Whether blocks can be sent.
pub open spec fn all_sendable(frames: Seq<FrameView>) -> bool {
    forall|i: int| 0 <= i < frames.len() ==> is_sendable(#[trigger] frames[i])
}

/// A stream reads as the blocks that were written into it, where they can be sent.
pub proof fn lemma_stream_round_trip(frames: Seq<FrameView>)
    ensures
        all_sendable(frames) ==> stream_frames(stream_bytes(frames)) == frames && next_frame(
            stream_rest(stream_bytes(frames)),
        ) is End,
    decreases frames.len(),
{
    let s = stream_bytes(frames);
    if frames.len() > 0 && all_sendable(frames) {
        let f = frames[0];
        let rest = frames.skip(1);
        assert(is_sendable(f));
        assert(all_sendable(rest)) by {
            assert forall|i: int| 0 <= i < rest.len() implies is_sendable(#[trigger] rest[i]) by {
                assert(rest[i] == frames[i + 1]);
            }
        }
        lemma_stream_round_trip(rest);
        let d = digest::sha256_of(f.raw);
        let n = f.raw.len();
        digest::lemma_hex_round_trip(d);
        bytes::lemma_byte_ranges();
        bytes::lemma_le_round_trip(n, 4);
        let head = frame_bytes(f);
        assert(digest::bytes_of_hex(f.sha256) == d);
        assert(head.len() == 36 + n);
        assert(s =~= head + stream_bytes(rest));
        assert(s.take(32) =~= d);
        assert(s.subrange(32, 36) =~= bytes::le_bytes(n, 4));
        assert(s.subrange(36, 36 + n as int) =~= f.raw);
        assert(s.skip(36 + n as int) =~= stream_bytes(rest));
        assert(next_frame(s) == NextFrame::Frame(f, 36 + n));
        assert(seq![f] + rest =~= frames);
    } else if frames.len() == 0 {
        assert(frames =~= Seq::<FrameView>::empty());
    }
}

/// Whether these are the blocks of a stream, and why it ends as it does. A stream may end
/// where the digest of a block should begin, unless it is broken there.
pub open spec fn is_block_stream(s: Seq<u8>, broken: bool, r: BlockStream) -> bool {
    let rest = stream_rest(s);
    &&& frame_views(r.frames@) == stream_frames(s)
    &&& r.error is None <==> next_frame(rest) is End && !broken
    &&& r.error matches Some(e) ==> if next_frame(rest) is End {
        e is NoHash
    } else {
        is_stream_error(rest, e)
    }
}

/// Reads a stream of blocks that was decompressed. One that was cut short may end between
/// two blocks; the blocks before an error are good.
pub fn read_decoded_blocks(decoded: &compress::Decoded) -> (r: BlockStream)
    ensures
        is_block_stream(decoded.bytes@, decoded.end is Broken, r),
{
    let mut r: BlockStream = read_cas_block_stream(decoded.bytes.as_slice());
    if decoded.end == compress::DecodeEnd::Broken && r.error.is_none() {
        r.error = Some(StreamError::NoHash);
    }
    r
}

/// Reads a stream of blocks as it was sent, compressed or not. Of a compressed stream that
/// is broken, the blocks that came before are read.
pub fn receive_block_stream(payload: &[u8], compressed: bool) -> (r: BlockStream)
    ensures
        !compressed ==> is_block_stream(payload@, false, r),
        compressed ==> is_block_stream(
            compress::stream_content(payload@),
            compress::stream_end(payload@) is Broken,
            r,
        ),
{
    if compressed {
        read_decoded_blocks(&compress::decode_stream(payload))
    } else {
        read_cas_block_stream(payload)
    }
}

/// Compresses a stream of blocks for sending. What is received from it is the stream.
pub fn pack_block_stream(stream: &[u8]) -> (r: Result<Vec<u8>, String>)
    ensures
        match r {
            Ok(v) => compress::zstd_encoded(stream@, compress::BLOCK_COMPRESSION_LEVEL as int)
                == Some(v@) && compress::zstd_decoded(v@) == Some(stream@),
            Err(_) => compress::zstd_encoded(stream@, compress::BLOCK_COMPRESSION_LEVEL as int)
                is None,
        },
{
    compress::zstd_encode(stream, compress::BLOCK_COMPRESSION_LEVEL)
}

// ---------------------------------------------------------------------------
// Putting files together
// ---------------------------------------------------------------------------

/// The blocks that are written into a file of zeros to put it together: all but the full
/// blocks of zeros.
pub open spec fn writes(blocks: Seq<BlockView>, zero_hash: Seq<char>) -> Seq<BlockView>
    decreases blocks.len(),
{
    if blocks.len() == 0 {
        Seq::empty()
    } else if blocks.last().sha256 == zero_hash {
        writes(blocks.drop_last(), zero_hash)
    } else {
        writes(blocks.drop_last(), zero_hash).push(blocks.last())
    }
}

/// The blocks that are written into a file of zeros to put it together, given the digest
/// of a full block of zeros.
pub fn block_writes(file: &CasManifestFile, zero_hash: &str) -> (r: Vec<CasManifestBlock>)
    ensures
        block_views(r@) == writes(file@.blocks, zero_hash@),
{
    let ghost all = file@.blocks;
    let mut r: Vec<CasManifestBlock> = Vec::new();
    let mut i: usize = 0;
    assert(all.take(0) =~= Seq::<BlockView>::empty());
    assert(block_views(r@) =~= Seq::<BlockView>::empty());
    while i < file.blocks.len()
        invariant
            i <= file.blocks@.len(),
            all == file@.blocks,
            block_views(r@) == writes(all.take(i as int), zero_hash@),
        decreases file.blocks@.len() - i,
    {
        let block: &CasManifestBlock = &file.blocks[i];
        proof {
            assert(all.take(i + 1).drop_last() =~= all.take(i as int));
            assert(all.take(i + 1).last() == block@);
        }
        if !text::same(block.sha256.as_str(), zero_hash) {
            let ghost before = block_views(r@);
            r.push(
                CasManifestBlock {
                    offset: block.offset,
                    len: block.len,
                    sha256: block.sha256.clone(),
                },
            );
            assert(block_views(r@) =~= before.push(block@));
        }
        i = i + 1;
    }
    assert(all.take(i as int) =~= all);
    r
}

/// The blocks that are written into a file of zeros to put it together.
pub fn reconstruct_cas_file(file: &CasManifestFile) -> (r: Vec<CasManifestBlock>)
    ensures
        block_views(r@) == writes(
            file@.blocks,
            digest::hex_of(digest::sha256_of(digest::zero_block())),
        ),
{
    block_writes(file, digest::zero_block_hash().as_str())
}

/// Bytes with a block written into them.
pub open spec fn with_block(
    base: Seq<u8>,
    b: BlockView,
    store: Map<Seq<char>, Seq<u8>>,
) -> Seq<u8> {
    Seq::new(
        base.len(),
        |p: int|
            if b.offset <= p < b.offset + b.len {
                store[b.sha256][p - b.offset]
            } else {
                base[p]
            },
    )
}

/// A file that is put together: zeros, with blocks written into them one after another.
pub open spec fn put_together(
    len: u64,
    blocks: Seq<BlockView>,
    store: Map<Seq<char>, Seq<u8>>,
) -> Seq<u8>
    decreases blocks.len(),
{
    if blocks.len() == 0 {
        Seq::new(len as nat, |p: int| 0u8)
    } else {
        with_block(put_together(len, blocks.drop_last(), store), blocks.last(), store)
    }
}

/// The blocks of a part of a file.
pub open spec fn cut(content: Seq<u8>, parts: Seq<Span>) -> Seq<BlockView> {
    Seq::new(
        parts.len(),
        |i: int|
            BlockView {
                offset: parts[i].offset,
                len: parts[i].len,
                sha256: digest::hex_of(
                    digest::sha256_of(
                        content.subrange(
                            parts[i].offset as int,
                            parts[i].offset + parts[i].len,
                        ),
                    ),
                ),
            },
    )
}

/// The blocks of a file with data in some extents.
pub open spec fn blocks_of(content: Seq<u8>, extents: Seq<Span>) -> Seq<BlockView> {
    cut(content, all_pieces(extents))
}

/// Whether a place of a file lies in a block.
pub open spec fn in_block(b: BlockView, p: int) -> bool {
    b.offset <= p < b.offset + b.len
}

/// Whether a store has what a file needs: under the digest of each block its bytes,
/// unless they are a full block of zeros, which no other bytes have the digest of.
pub open spec fn store_has(
    store: Map<Seq<char>, Seq<u8>>,
    blocks: Seq<BlockView>,
    content: Seq<u8>,
    zero_hash: Seq<char>,
) -> bool {
    forall|i: int|
        0 <= i < blocks.len() ==> {
            let b = #[trigger] blocks[i];
            let raw = content.subrange(b.offset as int, b.offset + b.len);
            if b.sha256 == zero_hash {
                raw == Seq::new(b.len as nat, |k: int| 0u8)
            } else {
                store[b.sha256] == raw
            }
        }
}

proof fn lemma_put_together(
    len: u64,
    blocks: Seq<BlockView>,
    store: Map<Seq<char>, Seq<u8>>,
    content: Seq<u8>,
    zero_hash: Seq<char>,
)
    requires
        content.len() == len,
        forall|i: int|
            0 <= i < blocks.len() ==> (#[trigger] blocks[i]).offset + blocks[i].len <= len,
        store_has(store, blocks, content, zero_hash),
    ensures
        put_together(len, writes(blocks, zero_hash), store).len() == len,
        forall|p: int|
            0 <= p < len ==> {
                let v = #[trigger] put_together(len, writes(blocks, zero_hash), store)[p];
                v == content[p] || (v == 0 && forall|i: int|
                    0 <= i < blocks.len() ==> !in_block(#[trigger] blocks[i], p))
            },
    decreases blocks.len(),
{
    let w = writes(blocks, zero_hash);
    let r = put_together(len, w, store);
    if blocks.len() > 0 {
        let front = blocks.drop_last();
        let last = blocks.last();
        assert forall|i: int| 0 <= i < front.len() implies (#[trigger] front[i]).offset
            + front[i].len <= len by {
            assert(front[i] == blocks[i]);
        }
        assert(store_has(store, front, content, zero_hash)) by {
            assert forall|i: int| 0 <= i < front.len() implies {
                let b = #[trigger] front[i];
                let raw = content.subrange(b.offset as int, b.offset + b.len);
                if b.sha256 == zero_hash {
                    raw == Seq::new(b.len as nat, |k: int| 0u8)
                } else {
                    store[b.sha256] == raw
                }
            } by {
                assert(front[i] == blocks[i]);
            }
        }
        lemma_put_together(len, front, store, content, zero_hash);
        let u = writes(front, zero_hash);
        let q = put_together(len, u, store);
        let raw = content.subrange(last.offset as int, last.offset + last.len);
        assert(blocks[blocks.len() - 1] == last);
        if last.sha256 != zero_hash {
            assert(w.drop_last() =~= u);
            assert(r == with_block(q, last, store));
        }
        assert forall|p: int| 0 <= p < len implies {
            let v = #[trigger] r[p];
            v == content[p] || (v == 0 && forall|i: int|
                0 <= i < blocks.len() ==> !in_block(#[trigger] blocks[i], p))
        } by {
            let before = q[p];
            if in_block(last, p) {
                assert(raw[p - last.offset] == content[p]);
                if last.sha256 == zero_hash {
                    assert(raw[p - last.offset] == 0);
                    assert(r[p] == before);
                } else {
                    assert(r[p] == content[p]);
                }
            } else {
                assert(r[p] == before);
                if before != content[p] {
                    assert forall|i: int| 0 <= i < blocks.len() implies !in_block(
                        #[trigger] blocks[i],
                        p,
                    ) by {
                        if i < front.len() {
                            assert(front[i] == blocks[i]);
                        }
                    }
                }
            }
        }
    }
}

proof fn lemma_blocks_of(content: Seq<u8>, extents: Seq<Span>, p: int)
    requires
        content.len() <= u64::MAX,
        forall|i: int|
            0 <= i < extents.len() ==> (#[trigger] extents[i]).offset + extents[i].len
                <= content.len(),
    ensures
        forall|i: int|
            0 <= i < blocks_of(content, extents).len() ==> (#[trigger] blocks_of(
                content,
                extents,
            )[i]).offset + blocks_of(content, extents)[i].len <= content.len(),
        (exists|e: int|
            0 <= e < extents.len() && (#[trigger] extents[e]).offset <= p < extents[e].offset
                + extents[e].len) ==> exists|i: int|
            0 <= i < blocks_of(content, extents).len() && in_block(
                #[trigger] blocks_of(content, extents)[i],
                p,
            ),
    decreases extents.len(),
{
    let all = blocks_of(content, extents);
    if extents.len() > 0 {
        let front = extents.drop_last();
        let last = extents.last();
        assert forall|i: int| 0 <= i < front.len() implies (#[trigger] front[i]).offset
            + front[i].len <= content.len() by {
            assert(front[i] == extents[i]);
        }
        assert(extents[extents.len() - 1] == last);
        lemma_blocks_of(content, front, p);
        let before = blocks_of(content, front);
        let parts = pieces(last.offset as int, last.len as int);
        let own = cut(content, parts);
        assert(all =~= before + own);
        lemma_pieces_cover(last.offset as int, last.len as int, p);
        assert forall|i: int| 0 <= i < all.len() implies (#[trigger] all[i]).offset + all[i].len
            <= content.len() by {
            if i < before.len() {
                assert(all[i] == before[i]);
            } else {
                assert(all[i] == own[i - before.len()]);
                assert(parts[i - before.len()].offset + parts[i - before.len()].len <= last.offset
                    + last.len);
            }
        }
        if exists|e: int|
            0 <= e < extents.len() && (#[trigger] extents[e]).offset <= p < extents[e].offset
                + extents[e].len {
            let e = choose|e: int|
                0 <= e < extents.len() && (#[trigger] extents[e]).offset <= p < extents[e].offset
                    + extents[e].len;
            if e < front.len() {
                assert(front[e] == extents[e]);
                let i = choose|i: int|
                    0 <= i < before.len() && in_block(#[trigger] before[i], p);
                assert(all[i] == before[i]);
            } else {
                let k = choose|k: int|
                    0 <= k < parts.len() && (#[trigger] parts[k]).offset <= p < parts[k].offset
                        + parts[k].len;
                assert(all[before.len() + k] == own[k]);
                assert(in_block(all[before.len() + k], p));
            }
        }
    }
}

/// A file that is cut into blocks and put together again on the server is the same file:
/// it holds data only in its extents, and where the server has its blocks.
pub proof fn lemma_upload_round_trip(
    content: Seq<u8>,
    extents: Seq<Span>,
    store: Map<Seq<char>, Seq<u8>>,
    zero_hash: Seq<char>,
)
    requires
        content.len() <= u64::MAX,
        forall|i: int|
            0 <= i < extents.len() ==> (#[trigger] extents[i]).offset + extents[i].len
                <= content.len(),
        forall|p: int|
            0 <= p < content.len() && (forall|e: int|
                0 <= e < extents.len() ==> !((#[trigger] extents[e]).offset <= p
                    < extents[e].offset + extents[e].len)) ==> #[trigger] content[p] == 0,
    ensures
        store_has(store, blocks_of(content, extents), content, zero_hash) ==> put_together(
            content.len() as u64,
            writes(blocks_of(content, extents), zero_hash),
            store,
        ) == content,
{
    let blocks = blocks_of(content, extents);
    let r = put_together(content.len() as u64, writes(blocks, zero_hash), store);
    lemma_blocks_of(content, extents, 0);
    if store_has(store, blocks, content, zero_hash) {
        lemma_put_together(content.len() as u64, blocks, store, content, zero_hash);
        assert forall|p: int| 0 <= p < content.len() implies r[p] == content[p] by {
            lemma_blocks_of(content, extents, p);
            if r[p] != content[p] {
                assert forall|e: int| 0 <= e < extents.len() implies !((
                #[trigger] extents[e]).offset <= p < extents[e].offset + extents[e].len) by {}
                assert(content[p] == 0);
            }
        }
        assert(r =~= content);
    }
}

/// The message for a block that a file needs and the server does not have.
pub fn missing_block_message(sha256: &str, path: &str) -> (m: String)
    ensures
        m@ == "missing CAS block "@ + sha256@ + " for "@ + path@,
{
    let mut m: String = "missing CAS block ".to_owned();
    m.append(sha256);
    m.append(" for ");
    m.append(path);
    m
}

/// A safe path stays below any directory that it is taken from: joined to it, it lies in
/// it, and nothing on the way leads back up.
pub proof fn lemma_safe_paths_stay_below(base: Seq<char>, p: Seq<char>)
    ensures
        is_safe_path(p) ==> paths::lies_in(paths::joined(base, p), base),
        is_safe_path(p) <==> (p.len() == 0 || p[0] != '/') && (forall|i: int|
            0 <= i < paths::components(p).len() ==> #[trigger] paths::components(p)[i] != seq![
                '.',
                '.',
            ]),
{
    if is_safe_path(p) {
        paths::lemma_joined_lies_in(base, p);
        assert forall|i: int| 0 <= i < paths::components(p).len() implies #[trigger]
            paths::components(p)[i] != seq!['.', '.'] by {
            assert(paths::components(p).contains(paths::components(p)[i]));
        }
    }
}

// ---------------------------------------------------------------------------
// Laws of manifests, pieces and streams
// ---------------------------------------------------------------------------

/// Whether a problem is one that blocks of a file really have.
pub open spec fn is_problem_of_blocks(
    path: Seq<char>,
    file_len: u64,
    blocks: Seq<BlockView>,
    problem: Problem,
) -> bool {
    exists|i: int|
        0 <= i < blocks.len() && match problem {
            Problem::Hash(value) => (#[trigger] blocks[i]).sha256 == value
                && !digest::is_sha256_hex(value),
            Problem::Length(len, p) => p == path && blocks[i].len == len && (len == 0 || len
                > 64 * 1024),
            Problem::OutOfBounds(p) => p == path && blocks[i].offset + blocks[i].len > file_len,
            Problem::Overlap(p) => p == path && i > 0 && blocks[i].offset < blocks[i - 1].offset
                + blocks[i - 1].len,
            _ => false,
        }
}

proof fn lemma_problem_of_blocks(
    path: Seq<char>,
    file_len: u64,
    blocks: Seq<BlockView>,
    at: int,
    previous_end: int,
)
    requires
        0 <= at <= blocks.len(),
        at == 0 ==> previous_end == 0,
        at > 0 ==> previous_end == blocks[at - 1].offset + blocks[at - 1].len,
    ensures
        blocks_problem(path, file_len, blocks.skip(at), previous_end) matches Some(p)
            ==> is_problem_of_blocks(path, file_len, blocks, p),
    decreases blocks.len() - at,
{
    let rest = blocks.skip(at);
    if rest.len() > 0 {
        let b = rest[0];
        assert(b == blocks[at]);
        assert(rest.skip(1) =~= blocks.skip(at + 1));
        lemma_problem_of_blocks(path, file_len, blocks, at + 1, b.offset + b.len);
    }
}

/// What is named as wrong with a manifest is wrong with it: a name that is none, a path
/// that leads away, stands there twice or is empty, or a block of a file whose digest,
/// length or place is wrong.
pub proof fn lemma_problems_are_real(source: Seq<char>, files: Seq<FileView>)
    ensures
        manifest_problem(source, files) matches Some(problem) ==> match problem {
            Problem::Name(name) => name == source && !names::is_instance_name(source),
            Problem::UnsafePath(path) => !is_safe_path(path) && exists|i: int|
                0 <= i < files.len() && (#[trigger] files[i]).path == path,
            Problem::Duplicate(path) => exists|i: int, j: int|
                0 <= i < j < files.len() && (#[trigger] files[i]).path == path && (
                #[trigger] files[j]).path == path,
            Problem::EmptyPath => exists|i: int|
                0 <= i < files.len() && (#[trigger] files[i]).path.len() == 0,
            _ => exists|i: int|
                0 <= i < files.len() && is_problem_of_blocks(
                    (#[trigger] files[i]).path,
                    files[i].len,
                    files[i].blocks,
                    problem,
                ),
        },
{
    if names::is_instance_name(source) {
        lemma_problems_of_files(files, 0);
    }
}

proof fn lemma_problems_of_files(files: Seq<FileView>, at: int)
    requires
        0 <= at <= files.len(),
    ensures
        files_problem(files, at) matches Some(problem) ==> match problem {
            Problem::Name(name) => false,
            Problem::UnsafePath(path) => !is_safe_path(path) && exists|i: int|
                0 <= i < files.len() && (#[trigger] files[i]).path == path,
            Problem::Duplicate(path) => exists|i: int, j: int|
                0 <= i < j < files.len() && (#[trigger] files[i]).path == path && (
                #[trigger] files[j]).path == path,
            Problem::EmptyPath => exists|i: int|
                0 <= i < files.len() && (#[trigger] files[i]).path.len() == 0,
            _ => exists|i: int|
                0 <= i < files.len() && is_problem_of_blocks(
                    (#[trigger] files[i]).path,
                    files[i].len,
                    files[i].blocks,
                    problem,
                ),
        },
    decreases files.len() - at,
{
    if at < files.len() {
        let f = files[at];
        lemma_problems_of_files(files, at + 1);
        assert(f.blocks.skip(0) =~= f.blocks);
        lemma_problem_of_blocks(f.path, f.len, f.blocks, 0, 0);
        if is_repeat(files, at) {
            let j = choose|j: int| 0 <= j < at && #[trigger] files[j].path == files[at].path;
            assert(files[j].path == files[at].path);
        }
        assert(files[at].path == f.path);
    }
}

/// Of blocks with one digest the first is kept, and those that are kept stay in their
/// order.
pub proof fn lemma_first_of_each_is_kept(blocks: Seq<BlockView>, block: BlockView)
    ensures
        (exists|i: int| 0 <= i < blocks.len() && (#[trigger] blocks[i]).sha256 == block.sha256)
            ==> distinct(blocks.push(block)) == distinct(blocks),
        (forall|i: int| 0 <= i < blocks.len() ==> (#[trigger] blocks[i]).sha256 != block.sha256)
            ==> distinct(blocks.push(block)) == distinct(blocks).push(block),
        distinct(Seq::empty()) == Seq::<BlockView>::empty(),
{
    assert(blocks.push(block).drop_last() =~= blocks);
    if exists|i: int| 0 <= i < blocks.len() && (#[trigger] blocks[i]).sha256 == block.sha256 {
        let i = choose|i: int| 0 <= i < blocks.len() && (#[trigger] blocks[i]).sha256
            == block.sha256;
        assert(blocks[i].sha256 == block.sha256);
        assert(names_one(blocks, block.sha256));
    }
}

/// A part of a file is cut into pieces of 64 KiB one behind the other, and only the last
/// may be shorter.
pub proof fn lemma_pieces_are_full(offset: int, len: int, i: int)
    requires
        0 <= offset,
        0 < len,
        offset + len <= u64::MAX,
        0 <= i < pieces(offset, len).len(),
    ensures
        pieces(offset, len)[i].offset == offset + 65536 * i,
        i < pieces(offset, len).len() - 1 ==> pieces(offset, len)[i].len == 65536,
        i == pieces(offset, len).len() - 1 ==> pieces(offset, len)[i].len == len - 65536 * i,
    decreases len,
{
    if len > CAS_BLOCK_SIZE {
        let rest = pieces(offset + CAS_BLOCK_SIZE, len - CAS_BLOCK_SIZE);
        if i > 0 {
            lemma_pieces_are_full(offset + CAS_BLOCK_SIZE, len - CAS_BLOCK_SIZE, i - 1);
            assert(pieces(offset, len)[i] == rest[i - 1]);
        }
        assert(rest.len() > 0);
    }
}

/// The pieces of extents are those of each, one after the other.
pub proof fn lemma_all_pieces(a: Seq<Span>, b: Seq<Span>, extent: Span)
    ensures
        all_pieces(a + b) == all_pieces(a) + all_pieces(b),
        all_pieces(seq![extent]) == pieces(extent.offset as int, extent.len as int),
        all_pieces(Seq::empty()) == Seq::<Span>::empty(),
    decreases b.len(),
{
    reveal_with_fuel(all_pieces, 2);
    assert(seq![extent].drop_last() =~= Seq::<Span>::empty());
    assert(all_pieces(seq![extent]) =~= pieces(extent.offset as int, extent.len as int));
    if b.len() == 0 {
        assert(a + b =~= a);
        assert(all_pieces(a) + all_pieces(b) =~= all_pieces(a));
    } else {
        lemma_all_pieces(a, b.drop_last(), extent);
        assert((a + b).drop_last() =~= a + b.drop_last());
        assert(all_pieces(a + b) =~= all_pieces(a) + all_pieces(b));
    }
}

/// What is counted is exact as far as it fits, and the largest number where it does not.
pub proof fn lemma_capped(n: nat)
    ensures
        capped(n) <= n,
        capped(n) <= u64::MAX,
        capped(n) == n || capped(n) == u64::MAX,
{
}

/// How a block stands in a stream: the bytes of its digest, its length in four bytes with
/// the lowest first, and its own bytes.
pub proof fn lemma_frame_bytes(f: FrameView)
    requires
        digest::is_sha256_hex(f.sha256),
        f.raw.len() <= 65536,
    ensures
        frame_bytes(f).len() == 36 + f.raw.len(),
        frame_bytes(f).take(32) == digest::bytes_of_hex(f.sha256),
        bytes::le_value(frame_bytes(f).subrange(32, 36)) == f.raw.len(),
        frame_bytes(f).skip(36) == f.raw,
{
    bytes::lemma_byte_ranges();
    bytes::lemma_le_round_trip(f.raw.len(), 4);
    assert(digest::bytes_of_hex(f.sha256).len() == 32);
    assert(frame_bytes(f).take(32) =~= digest::bytes_of_hex(f.sha256));
    assert(frame_bytes(f).subrange(32, 36) =~= bytes::le_bytes(f.raw.len(), 4));
    assert(frame_bytes(f).skip(36) =~= f.raw);
}

/// What comes next in a stream: its end where not even a digest is left, and a block
/// exactly where a digest, a length from one byte to 64 KiB, and as many bytes are there.
pub proof fn lemma_next_frame(s: Seq<u8>)
    ensures
        next_frame(s) is End <==> s.len() < 32,
        next_frame(s) is NoLength <==> 32 <= s.len() < 36,
        s.len() >= 36 ==> {
            let len = bytes::le_value(s.subrange(32, 36));
            &&& next_frame(s) is Length <==> len == 0 || len > 65536
            &&& next_frame(s) is NoPayload <==> 0 < len <= 65536 && s.len() < 36 + len
            &&& 0 < len <= 65536 && s.len() >= 36 + len ==> next_frame(s) == NextFrame::Frame(
                FrameView {
                    sha256: digest::hex_of(s.take(32)),
                    raw: s.skip(36).take(len as int),
                },
                36 + len,
            )
        },
{
    if s.len() >= 36 {
        let len = bytes::le_value(s.subrange(32, 36)) as int;
        if s.len() >= 36 + len {
            assert(s.skip(36).take(len) =~= s.subrange(36, 36 + len));
        }
    }
}

/// What is written of a file: every block in its order but those of zeros, which the hole
/// in the file already gives.
pub proof fn lemma_writes(
    a: Seq<BlockView>,
    b: Seq<BlockView>,
    block: BlockView,
    zero_hash: Seq<char>,
)
    ensures
        writes(a + b, zero_hash) == writes(a, zero_hash) + writes(b, zero_hash),
        block.sha256 == zero_hash ==> writes(seq![block], zero_hash) == Seq::<BlockView>::empty(),
        block.sha256 != zero_hash ==> writes(seq![block], zero_hash) == seq![block],
        writes(Seq::empty(), zero_hash) == Seq::<BlockView>::empty(),
    decreases b.len(),
{
    reveal_with_fuel(writes, 2);
    assert(seq![block].drop_last() =~= Seq::<BlockView>::empty());
    if block.sha256 != zero_hash {
        assert(writes(seq![block], zero_hash) =~= seq![block]);
    }
    if b.len() == 0 {
        assert(a + b =~= a);
        assert(writes(a, zero_hash) + writes(b, zero_hash) =~= writes(a, zero_hash));
    } else {
        lemma_writes(a, b.drop_last(), block, zero_hash);
        assert((a + b).drop_last() =~= a + b.drop_last());
        assert(writes(a + b, zero_hash) =~= writes(a, zero_hash) + writes(b, zero_hash));
    }
}

/// Where a block is stored: below the store, in a directory named by the first two digits
/// of its digest, under the digest.
pub proof fn lemma_block_path(base: Seq<char>, sha256: Seq<char>)
    requires
        digest::is_sha256_hex(sha256),
    ensures
        paths::components(block_path(base, sha256)) == paths::components(base) + seq![
            "cas"@,
            "sha256"@,
            seq![sha256[0], sha256[1]],
            sha256,
        ],
        forall|other: Seq<char>|
            digest::is_sha256_hex(other) && paths::components(#[trigger] block_path(base, other))
                == paths::components(block_path(base, sha256)) ==> other == sha256,
{
    lemma_block_path_parts(base, sha256);
    assert forall|other: Seq<char>|
        digest::is_sha256_hex(other) && paths::components(#[trigger] block_path(base, other))
            == paths::components(block_path(base, sha256)) implies other == sha256 by {
        lemma_block_path_parts(base, other);
        let n = paths::components(base).len() as int;
        assert(paths::components(block_path(base, other))[n + 3] == other);
        assert(paths::components(block_path(base, sha256))[n + 3] == sha256);
    }
}

proof fn lemma_block_path_parts(base: Seq<char>, sha256: Seq<char>)
    requires
        digest::is_sha256_hex(sha256),
    ensures
        paths::components(block_path(base, sha256)) == paths::components(base) + seq![
            "cas"@,
            "sha256"@,
            seq![sha256[0], sha256[1]],
            sha256,
        ],
{
    let two = sha256.take(2);
    assert(two =~= seq![sha256[0], sha256[1]]);
    assert forall|i: int| 0 <= i < 64 implies sha256[i] != '/' && sha256[i] != '.' by {
        assert(digest::hex_digit_value(sha256[i]) >= 0);
    }
    assert(two[0] == sha256[0] && two[1] == sha256[1]);
    assert(sha256.len() == 64);
    assert("cas"@.len() == 3 && !"cas"@.contains('/')) by {
        reveal_strlit("cas");
    }
    assert("sha256"@.len() == 6 && !"sha256"@.contains('/')) by {
        reveal_strlit("sha256");
    }
    assert(paths::is_name(two)) by {
        assert(seq!['.', '.'][0] == '.');
    }
    let a = paths::joined(base, "cas"@);
    let b = paths::joined(a, "sha256"@);
    let c = paths::joined(b, two);
    paths::lemma_name_in_directory(base, "cas"@);
    paths::lemma_name_in_directory(a, "sha256"@);
    paths::lemma_name_in_directory(b, two);
    paths::lemma_name_in_directory(c, sha256);
    assert(paths::components(base).push("cas"@).push("sha256"@).push(two).push(sha256)
        =~= paths::components(base) + seq!["cas"@, "sha256"@, two, sha256]);
}

/// The blocks that are taken from a stream are sound, each with the digest that it came
/// under, and what was taken and what is left make up the stream.
#[verifier::spinoff_prover]
#[verifier::rlimit(40)]
pub proof fn lemma_taken_blocks_are_sound(s: Seq<u8>)
    ensures
        forall|i: int|
            0 <= i < stream_frames(s).len() ==> (#[trigger] stream_frames(s)[i]).sha256
                == digest::hex_of(digest::sha256_of(stream_frames(s)[i].raw)) && 0
                < stream_frames(s)[i].raw.len() <= 65536,
        s == stream_bytes(stream_frames(s)) + stream_rest(s),
    decreases s.len(),
{
    let none = Seq::<FrameView>::empty();
    assert(stream_bytes(none) == Seq::<u8>::empty());
    match next_frame(s) {
        NextFrame::Frame(f, n) => {
            if goes_on(s) && 0 < n <= s.len() {
                let rest = s.skip(n as int);
                lemma_taken_blocks_are_sound(rest);
                let frames = stream_frames(s);
                assert(frames == seq![f] + stream_frames(rest));
                assert forall|i: int| 0 <= i < frames.len() implies (#[trigger] frames[i]).sha256
                    == digest::hex_of(digest::sha256_of(frames[i].raw)) && 0 < frames[i].raw.len()
                    <= 65536 by {
                    if i > 0 {
                        assert(frames[i] == stream_frames(rest)[i - 1]);
                    }
                }
                assert(frames.skip(1) =~= stream_frames(rest));
                assert(frames[0] == f);
                digest::lemma_hex_round_trip(s.take(32));
                let len = bytes::le_value(s.subrange(32, 36));
                lemma_le_bytes_of_value(s.subrange(32, 36));
                assert(frame_bytes(f) =~= s.take(n as int));
                assert(s =~= s.take(n as int) + rest);
                assert(s =~= stream_bytes(frames) + stream_rest(s));
            } else {
                assert(s =~= stream_bytes(none) + s);
            }
        },
        _ => {
            assert(s =~= stream_bytes(none) + s);
        },
    }
}

proof fn lemma_le_bytes_of_value(s: Seq<u8>)
    ensures
        bytes::le_bytes(bytes::le_value(s), s.len()) == s,
    decreases s.len(),
{
    if s.len() == 0 {
        assert(bytes::le_bytes(bytes::le_value(s), s.len()) =~= s);
    } else {
        let rest = s.skip(1);
        lemma_le_bytes_of_value(rest);
        let v = bytes::le_value(s);
        assert(v % 256 == s[0] && v / 256 == bytes::le_value(rest));
        assert(bytes::le_bytes(v, s.len()) =~= seq![s[0]] + rest);
        assert(seq![s[0]] + rest =~= s);
    }
}

/// Why a stream stops early: its end came in a length or in a block, a length is wrong, or
/// a block is not what its digest says.
pub proof fn lemma_which_stream_error(rest: Seq<u8>, e: StreamError)
    requires
        is_stream_error(rest, e),
    ensures
        rest.len() >= 32,
        e is NoLength <==> rest.len() < 36,
        e matches StreamError::Length { len } ==> len == bytes::le_value(rest.subrange(32, 36))
            && (len == 0 || len > 65536),
        e is NoPayload ==> rest.len() < 36 + bytes::le_value(rest.subrange(32, 36)),
        e matches StreamError::Store(StoreError::Mismatch { expected, actual }) ==> expected@
            == digest::hex_of(rest.take(32)) && actual@ == digest::hex_of(
            digest::sha256_of(
                rest.subrange(36, 36 + bytes::le_value(rest.subrange(32, 36)) as int),
            ),
        ),
        !(e is NoHash),
{
}

/// Why a block is not stored: its digest is none, it is larger than 64 KiB, or it is not
/// what its digest says.
pub proof fn lemma_which_store_error(
    sha256: Seq<char>,
    raw: Seq<u8>,
    actual: Seq<char>,
    e: StoreError,
)
    requires
        is_store_error(sha256, raw, actual, e),
    ensures
        e is Hash <==> !digest::is_sha256_hex(sha256),
        e is TooLarge <==> digest::is_sha256_hex(sha256) && raw.len() > 65536,
        e is Mismatch ==> digest::is_sha256_hex(sha256) && raw.len() <= 65536 && actual != sha256,
{
}

/// What came of a stream is all of its sound blocks, and an error exactly where it is
/// broken or does not end where a block could begin.
pub proof fn lemma_block_stream(s: Seq<u8>, broken: bool, r: BlockStream)
    requires
        is_block_stream(s, broken, r),
    ensures
        frame_views(r.frames@) == stream_frames(s),
        r.error is None <==> stream_rest(s).len() < 32 && !broken,
        r.error matches Some(e) ==> (e is NoHash <==> stream_rest(s).len() < 32),
{
    lemma_next_frame(stream_rest(s));
    if let Some(e) = r.error {
        if !(next_frame(stream_rest(s)) is End) {
            lemma_which_stream_error(stream_rest(s), e);
        }
    }
}

/// What is looked at of a file: its path, its length, and of each block its place, its
/// length and its digest, in their order.
pub proof fn lemma_view_of_a_file(file: CasManifestFile, files: Seq<CasManifestFile>)
    ensures
        file@.path == file.path@,
        file@.len == file.len,
        file@.blocks.len() == file.blocks@.len(),
        forall|i: int|
            0 <= i < file.blocks@.len() ==> #[trigger] file@.blocks[i] == (BlockView {
                offset: file.blocks@[i].offset,
                len: file.blocks@[i].len,
                sha256: file.blocks@[i].sha256@,
            }),
        file_views(files).len() == files.len(),
        forall|i: int| 0 <= i < files.len() ==> #[trigger] file_views(files)[i] == files[i]@,
{
}

/// What is looked at of blocks in a stream: the digest and the bytes of each, in their
/// order.
pub proof fn lemma_view_of_frames(frames: Seq<BlockFrame>)
    ensures
        frame_views(frames).len() == frames.len(),
        forall|i: int|
            0 <= i < frames.len() ==> (#[trigger] frame_views(frames)[i]) == (FrameView {
                sha256: frames[i].sha256@,
                raw: frames[i].raw@,
            }),
{
}

} // verus!
