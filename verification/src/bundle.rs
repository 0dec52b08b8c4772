//! Bundles: an instance's files in one stream, without their holes.
use vstd::prelude::*;

use crate::bytes;
use crate::cas;
use crate::cas::Span;
use crate::compress;
use crate::paths;
use crate::text;

verus! {

/// How large the manifest of a bundle may be, in bytes.
pub const BUNDLE_MANIFEST_MAX_BYTES: u64 = 16777216;

/// The version of the bundles that are taken.
pub const BUNDLE_VERSION: u32 = 1;

/// What a bundle holds.
#[derive(Debug, PartialEq, Eq)]
pub struct SparseBundleManifest {
    pub version: u32,
    pub source_instance: String,
    pub compression: Option<String>,
    pub files: Vec<SparseBundleFile>,
}

/// A file of a bundle, by its extents. What lies in none of them is zero.
#[derive(Debug, PartialEq, Eq)]
pub struct SparseBundleFile {
    pub path: String,
    pub len: u64,
    pub mode: u32,
    pub extents: Vec<SparseExtent>,
}

/// Data of a file. The bundle holds its bytes, or that many compressed ones.
#[derive(Clone, Copy, PartialEq, Eq, Structural, Debug)]
pub struct SparseExtent {
    pub offset: u64,
    pub len: u64,
    pub compressed_len: Option<u64>,
}

/// Why a bundle is not extracted.
#[derive(Debug, PartialEq, Eq)]
pub enum BundleError {
    NoMagic,
    BadMagic,
    NoLength,
    TooLarge { len: u64 },
    Version { version: u32 },
    Compression { name: String },
    Source { expected: String, found: String },
    UnsafePath { path: String },
    OutOfBounds { path: String },
    Inflate { path: String, offset: u64, error: String },
    Inflated { path: String, offset: u64, len: u64, got: u64 },
    NotBelow { path: String, base: String },
}

impl BundleError {
    /// The message shown to the user.
    pub open spec fn text(self) -> Seq<char> {
        match self {
            BundleError::NoMagic => "read sparse bundle magic"@,
            BundleError::BadMagic => "invalid sparse bundle magic"@,
            BundleError::NoLength => "read sparse bundle manifest length"@,
            BundleError::TooLarge { len } => "sparse bundle manifest is too large: "@ + text::dec(
                len as nat,
            ) + " bytes"@,
            BundleError::Version { version } => "unsupported sparse bundle version: "@ + text::dec(
                version as nat,
            ),
            BundleError::Compression { name } => "unsupported sparse bundle compression: "@
                + name@,
            BundleError::Source { expected, found } => "sparse bundle source instance mismatch: header="@
                + expected@ + ", bundle="@ + found@,
            BundleError::UnsafePath { path } => "unsafe sparse bundle path: "@ + path@,
            BundleError::OutOfBounds { path } => "extent out of bounds for "@ + path@,
            BundleError::Inflate { path, offset, error } => "decompress extent "@ + path@ + " at "@
                + text::dec(offset as nat) + ": "@ + error@,
            BundleError::Inflated { path, offset, len, got } => "decompressed extent length mismatch for "@
                + path@ + " at "@ + text::dec(offset as nat) + ": expected "@ + text::dec(
                len as nat,
            ) + ", got "@ + text::dec(got as nat),
            BundleError::NotBelow { path, base } => "make "@ + path@ + " relative to "@ + base@,
        }
    }

    /// The message shown to the user.
    pub fn message(&self) -> (m: String)
        ensures
            m@ == self.text(),
    {
        match self {
            BundleError::NoMagic => "read sparse bundle magic".to_owned(),
            BundleError::BadMagic => "invalid sparse bundle magic".to_owned(),
            BundleError::NoLength => "read sparse bundle manifest length".to_owned(),
            BundleError::TooLarge { len } => {
                let mut m: String = "sparse bundle manifest is too large: ".to_owned();
                text::push_dec(&mut m, *len as u128);
                m.append(" bytes");
                m
            },
            BundleError::Version { version } => {
                let mut m: String = "unsupported sparse bundle version: ".to_owned();
                text::push_dec(&mut m, *version as u128);
                m
            },
            BundleError::Compression { name } => {
                let mut m: String = "unsupported sparse bundle compression: ".to_owned();
                m.append(name.as_str());
                m
            },
            BundleError::Source { expected, found } => {
                let mut m: String = "sparse bundle source instance mismatch: header=".to_owned();
                m.append(expected.as_str());
                m.append(", bundle=");
                m.append(found.as_str());
                m
            },
            BundleError::UnsafePath { path } => {
                let mut m: String = "unsafe sparse bundle path: ".to_owned();
                m.append(path.as_str());
                m
            },
            BundleError::OutOfBounds { path } => {
                let mut m: String = "extent out of bounds for ".to_owned();
                m.append(path.as_str());
                m
            },
            BundleError::Inflate { path, offset, error } => {
                let mut m: String = "decompress extent ".to_owned();
                m.append(path.as_str());
                m.append(" at ");
                text::push_dec(&mut m, *offset as u128);
                m.append(": ");
                m.append(error.as_str());
                m
            },
            BundleError::Inflated { path, offset, len, got } => {
                let mut m: String = "decompressed extent length mismatch for ".to_owned();
                m.append(path.as_str());
                m.append(" at ");
                text::push_dec(&mut m, *offset as u128);
                m.append(": expected ");
                text::push_dec(&mut m, *len as u128);
                m.append(", got ");
                text::push_dec(&mut m, *got as u128);
                m
            },
            BundleError::NotBelow { path, base } => {
                let mut m: String = "make ".to_owned();
                m.append(path.as_str());
                m.append(" relative to ");
                m.append(base.as_str());
                m
            },
        }
    }
}

// ---------------------------------------------------------------------------
// The header
// ---------------------------------------------------------------------------

/// The bytes that begin a bundle.
pub open spec fn bundle_magic() -> Seq<u8> {
    seq![76u8, 78u8, 88u8, 83u8, 66u8, 88u8, 49u8, 10u8]
}

/// What the first sixteen bytes of a bundle say: how long its manifest is, or what is
/// wrong. A bundle may be shorter than that.
pub open spec fn header_of(s: Seq<u8>) -> Result<nat, BundleError> {
    let len = bytes::le_value(s.subrange(8, 16));
    if s.len() < 8 {
        Err(BundleError::NoMagic)
    } else if s.take(8) != bundle_magic() {
        Err(BundleError::BadMagic)
    } else if s.len() < 16 {
        Err(BundleError::NoLength)
    } else if len > BUNDLE_MANIFEST_MAX_BYTES {
        Err(BundleError::TooLarge { len: len as u64 })
    } else {
        Ok(len)
    }
}

fn begins_bundle(s: &[u8]) -> (r: bool)
    requires
        s@.len() >= 8,
    ensures
        r == (s@.take(8) == bundle_magic()),
{
    let r: bool = s[0] == 76 && s[1] == 78 && s[2] == 88 && s[3] == 83 && s[4] == 66 && s[5] == 88
        && s[6] == 49 && s[7] == 10;
    proof {
        let h = s@.take(8);
        if r {
            assert(h =~= bundle_magic());
        } else if h == bundle_magic() {
            assert(h[0] == 76 && h[1] == 78 && h[2] == 88 && h[3] == 83 && h[4] == 66 && h[5] == 88
                && h[6] == 49 && h[7] == 10);
        }
    }
    r
}

/// Reads the first sixteen bytes of a bundle, or what there is of them: how long its
/// manifest is.
pub fn bundle_header(s: &[u8]) -> (r: Result<u64, BundleError>)
    ensures
        match r {
            Ok(n) => header_of(s@) == Ok::<nat, BundleError>(n as nat),
            Err(e) => header_of(s@) == Err::<nat, BundleError>(e),
        },
{
    if s.len() < 8 {
        return Err(BundleError::NoMagic);
    }
    if !begins_bundle(s) {
        return Err(BundleError::BadMagic);
    }
    if s.len() < 16 {
        return Err(BundleError::NoLength);
    }
    let field: Vec<u8> = bytes::part(s, 8, 16);
    let len: u64 = bytes::read_le(field.as_slice());
    if len > BUNDLE_MANIFEST_MAX_BYTES {
        return Err(BundleError::TooLarge { len });
    }
    Ok(len)
}

/// What stands before the data of a bundle.
pub open spec fn prefix_of(manifest: Seq<u8>) -> Seq<u8> {
    bundle_magic() + bytes::le_bytes(manifest.len(), 8) + manifest
}

/// Writes what stands before the data of a bundle: the magic, and its encoded manifest
/// with its length.
pub fn bundle_prefix(manifest: &[u8]) -> (r: Vec<u8>)
    ensures
        r@ == prefix_of(manifest@),
{
    let mut r: Vec<u8> = Vec::new();
    r.push(76);
    r.push(78);
    r.push(88);
    r.push(83);
    r.push(66);
    r.push(88);
    r.push(49);
    r.push(10);
    assert(r@ =~= bundle_magic());
    bytes::push_le(&mut r, manifest.len() as u64, 8);
    bytes::push_all(&mut r, manifest);
    r
}

/// The manifest of a bundle is found where it was written, unless it is too large.
pub proof fn lemma_bundle_header_round_trip(manifest: Seq<u8>)
    requires
        manifest.len() <= BUNDLE_MANIFEST_MAX_BYTES,
    ensures
        header_of(prefix_of(manifest)) == Ok::<nat, BundleError>(manifest.len()),
        prefix_of(manifest).skip(16) == manifest,
{
    let s = prefix_of(manifest);
    bytes::lemma_byte_ranges();
    bytes::lemma_le_round_trip(manifest.len(), 8);
    assert(s.take(8) =~= bundle_magic());
    assert(s.subrange(8, 16) =~= bytes::le_bytes(manifest.len(), 8));
    assert(s.skip(16) =~= manifest);
}

// ---------------------------------------------------------------------------
// Extracting
// ---------------------------------------------------------------------------

/// Whether a bundle's data can be read: it is not compressed, or in the one known way.
pub open spec fn is_known_compression(compression: Option<Seq<char>>) -> bool {
    match compression {
        None => true,
        Some(name) => name == "zstd"@,
    }
}

/// Checks the manifest of a bundle against the instance that it should hold.
pub fn check_bundle_manifest(manifest: &SparseBundleManifest, expected: &str) -> (r: Result<
    (),
    BundleError,
>)
    ensures
        r is Ok <==> {
            &&& manifest.version == BUNDLE_VERSION
            &&& is_known_compression(text::opt_string(manifest.compression))
            &&& manifest.source_instance@ == expected@
        },
        r matches Err(e) ==> {
            if manifest.version != BUNDLE_VERSION {
                e == BundleError::Version { version: manifest.version }
            } else if !is_known_compression(text::opt_string(manifest.compression)) {
                e matches BundleError::Compression { name } && text::opt_string(
                    manifest.compression,
                ) == Some(name@)
            } else {
                e matches BundleError::Source { expected: x, found } && x@ == expected@ && found@
                    == manifest.source_instance@
            }
        },
{
    if manifest.version != BUNDLE_VERSION {
        return Err(BundleError::Version { version: manifest.version });
    }
    if let Some(name) = &manifest.compression {
        if !text::same(name.as_str(), "zstd") {
            return Err(BundleError::Compression { name: name.clone() });
        }
    }
    if !text::same(manifest.source_instance.as_str(), expected) {
        return Err(
            BundleError::Source {
                expected: expected.to_owned(),
                found: manifest.source_instance.clone(),
            },
        );
    }
    Ok(())
}

/// A step of extracting a bundle.
#[derive(Debug, PartialEq, Eq)]
pub enum ExtractStep {
    /// Create a file of this length below the destination.
    Create { path: String, len: u64 },
    /// Take the next bytes of the bundle and write them into the file.
    Copy { offset: u64, len: u64 },
    /// Take the next compressed bytes of the bundle, and write what they hold into the
    /// file.
    Inflate { offset: u64, compressed_len: u64, len: u64 },
    /// The file is complete: set its mode.
    SetMode { mode: u32 },
}

/// A step of extracting a bundle, as plain values.
pub enum StepView {
    Create(Seq<char>, u64),
    Copy(u64, u64),
    Inflate(u64, u64, u64),
    SetMode(u32),
}

impl ExtractStep {
    /// The step, as plain values.
    pub open spec fn view(self) -> StepView {
        match self {
            ExtractStep::Create { path, len } => StepView::Create(path@, len),
            ExtractStep::Copy { offset, len } => StepView::Copy(offset, len),
            ExtractStep::Inflate { offset, compressed_len, len } => StepView::Inflate(
                offset,
                compressed_len,
                len,
            ),
            ExtractStep::SetMode { mode } => StepView::SetMode(mode),
        }
    }
}

/// Steps, as plain values.
pub open spec fn step_views(steps: Seq<ExtractStep>) -> Seq<StepView> {
    Seq::new(steps.len(), |i: int| steps[i].view())
}

/// Whether an extent lies in a file.
pub open spec fn in_file(extent: SparseExtent, len: u64) -> bool {
    extent.offset + extent.len <= len
}

/// The step for an extent.
pub open spec fn extent_step(extent: SparseExtent) -> StepView {
    match extent.compressed_len {
        Some(n) => StepView::Inflate(extent.offset, n, extent.len),
        None => StepView::Copy(extent.offset, extent.len),
    }
}

/// The steps for extents, as far as they lie in their file.
pub open spec fn extent_steps(extents: Seq<SparseExtent>, len: u64) -> Seq<StepView>
    decreases extents.len(),
{
    if extents.len() == 0 || !in_file(extents[0], len) {
        Seq::empty()
    } else {
        seq![extent_step(extents[0])] + extent_steps(extents.skip(1), len)
    }
}

/// Whether all extents lie in their file.
pub open spec fn all_in_file(extents: Seq<SparseExtent>, len: u64) -> bool {
    forall|i: int| 0 <= i < extents.len() ==> in_file(#[trigger] extents[i], len)
}

/// The mode that a file gets.
pub open spec fn kept_mode(mode: u32) -> u32 {
    mode % 4096
}

/// The steps for files, up to the first that is wrong.
pub open spec fn file_steps(files: Seq<SparseBundleFile>) -> Seq<StepView>
    decreases files.len(),
{
    if files.len() == 0 || !cas::is_safe_path(files[0].path@) {
        Seq::empty()
    } else {
        let f = files[0];
        let own = seq![StepView::Create(f.path@, f.len)] + extent_steps(f.extents@, f.len);
        if all_in_file(f.extents@, f.len) {
            own + seq![StepView::SetMode(kept_mode(f.mode))] + file_steps(files.skip(1))
        } else {
            own
        }
    }
}

/// Whether a file can be extracted.
pub open spec fn is_good_file(f: SparseBundleFile) -> bool {
    cas::is_safe_path(f.path@) && all_in_file(f.extents@, f.len)
}

/// The first file that cannot be extracted.
pub open spec fn first_bad(files: Seq<SparseBundleFile>) -> Option<SparseBundleFile>
    decreases files.len(),
{
    if files.len() == 0 {
        None
    } else if is_good_file(files[0]) {
        first_bad(files.skip(1))
    } else {
        Some(files[0])
    }
}

fn push_extents(steps: &mut Vec<ExtractStep>, file: &SparseBundleFile) -> (good: bool)
    ensures
        step_views(final(steps)@) == step_views(old(steps)@) + extent_steps(
            file.extents@,
            file.len,
        ),
        good == all_in_file(file.extents@, file.len),
{
    let ghost before = step_views(steps@);
    let ghost all = file.extents@;
    let mut i: usize = 0;
    assert(all.skip(0) =~= all);
    while i < file.extents.len()
        invariant
            i <= file.extents@.len(),
            all == file.extents@,
            before == step_views(old(steps)@),
            forall|k: int| 0 <= k < i ==> in_file(#[trigger] all[k], file.len),
            step_views(steps@) + extent_steps(all.skip(i as int), file.len) == before
                + extent_steps(all, file.len),
        decreases file.extents@.len() - i,
    {
        let e: SparseExtent = file.extents[i];
        let ghost now = step_views(steps@);
        proof {
            assert(all.skip(i as int)[0] == e);
            assert(all.skip(i as int).skip(1) =~= all.skip(i + 1));
        }
        if e.offset > file.len || e.len > file.len - e.offset {
            assert(!in_file(all[i as int], file.len));
            assert(extent_steps(all.skip(i as int), file.len) =~= Seq::<StepView>::empty());
            assert(now + Seq::<StepView>::empty() =~= now);
            return false;
        }
        match e.compressed_len {
            Some(n) => steps.push(
                ExtractStep::Inflate { offset: e.offset, compressed_len: n, len: e.len },
            ),
            None => steps.push(ExtractStep::Copy { offset: e.offset, len: e.len }),
        }
        proof {
            let rest = extent_steps(all.skip(i + 1), file.len);
            assert(step_views(steps@) =~= now.push(extent_step(e)));
            assert(now + (seq![extent_step(e)] + rest) =~= step_views(steps@) + rest);
        }
        i = i + 1;
    }
    assert(all.skip(i as int) =~= Seq::<SparseExtent>::empty());
    assert(step_views(steps@) + Seq::<StepView>::empty() =~= step_views(steps@));
    true
}

/// Plans the extraction of a bundle. Where a file cannot be extracted, the steps lead up
/// to it, and the error says what is wrong.
pub fn extract_sparse_bundle(manifest: &SparseBundleManifest) -> (r: (
    Vec<ExtractStep>,
    Option<BundleError>,
))
    ensures
        step_views(r.0@) == file_steps(manifest.files@),
        match first_bad(manifest.files@) {
            None => r.1 is None,
            Some(f) => if !cas::is_safe_path(f.path@) {
                r.1 matches Some(BundleError::UnsafePath { path }) && path@ == f.path@
            } else {
                r.1 matches Some(BundleError::OutOfBounds { path }) && path@ == f.path@
            },
        },
{
    let ghost all = manifest.files@;
    let mut steps: Vec<ExtractStep> = Vec::new();
    let mut i: usize = 0;
    assert(all.skip(0) =~= all);
    assert(step_views(steps@) + file_steps(all) =~= file_steps(all));
    while i < manifest.files.len()
        invariant
            i <= manifest.files@.len(),
            all == manifest.files@,
            step_views(steps@) + file_steps(all.skip(i as int)) == file_steps(all),
            first_bad(all.skip(i as int)) == first_bad(all),
        decreases manifest.files@.len() - i,
    {
        let file: &SparseBundleFile = &manifest.files[i];
        let ghost start = step_views(steps@);
        let ghost rest = file_steps(all.skip(i + 1));
        proof {
            assert(all.skip(i as int)[0] == *file);
            assert(all.skip(i as int).skip(1) =~= all.skip(i + 1));
            assert(start + Seq::<StepView>::empty() =~= start);
        }
        if !cas::path_is_safe(file.path.as_str()) {
            return (steps, Some(BundleError::UnsafePath { path: file.path.clone() }));
        }
        steps.push(ExtractStep::Create { path: file.path.clone(), len: file.len });
        assert(step_views(steps@) =~= start.push(StepView::Create(file.path@, file.len)));
        let ghost own = seq![StepView::Create(file.path@, file.len)] + extent_steps(
            file.extents@,
            file.len,
        );
        let good: bool = push_extents(&mut steps, file);
        assert(step_views(steps@) =~= start + own);
        if !good {
            return (steps, Some(BundleError::OutOfBounds { path: file.path.clone() }));
        }
        let ghost now = step_views(steps@);
        steps.push(ExtractStep::SetMode { mode: file.mode % 4096 });
        proof {
            let last = StepView::SetMode(kept_mode(file.mode));
            assert(step_views(steps@) =~= now.push(last));
            assert(start + (own + seq![last] + rest) =~= step_views(steps@) + rest);
        }
        i = i + 1;
    }
    assert(all.skip(i as int) =~= Seq::<SparseBundleFile>::empty());
    assert(step_views(steps@) + Seq::<StepView>::empty() =~= step_views(steps@));
    (steps, None)
}

/// Every file that is created in extracting a bundle lies below the destination.
pub proof fn lemma_extraction_stays_below(files: Seq<SparseBundleFile>, i: int)
    requires
        0 <= i < file_steps(files).len(),
    ensures
        file_steps(files)[i] matches StepView::Create(path, _) ==> cas::is_safe_path(path),
    decreases files.len(),
{
    let f = files[0];
    let extents = extent_steps(f.extents@, f.len);
    let own = seq![StepView::Create(f.path@, f.len)] + extents;
    if 0 < i < own.len() {
        lemma_extent_steps_write(f.extents@, f.len, i - 1);
        assert(own[i] == extents[i - 1]);
    } else if i > own.len() {
        assert(file_steps(files)[i] == file_steps(files.skip(1))[i - own.len() - 1]);
        lemma_extraction_stays_below(files.skip(1), i - own.len() - 1);
    }
}

proof fn lemma_extent_steps_write(extents: Seq<SparseExtent>, len: u64, i: int)
    requires
        0 <= i < extent_steps(extents, len).len(),
    ensures
        match extent_steps(extents, len)[i] {
            StepView::Copy(offset, n) => offset + n <= len,
            StepView::Inflate(offset, _, n) => offset + n <= len,
            _ => false,
        },
    decreases extents.len(),
{
    if i > 0 {
        assert(extent_steps(extents, len)[i] == extent_steps(extents.skip(1), len)[i - 1]);
        lemma_extent_steps_write(extents.skip(1), len, i - 1);
    }
}

/// Checks that what compressed bytes hold is as long as the extent that they stand for.
pub fn check_inflated(data: Vec<u8>, path: &str, offset: u64, expected: u64) -> (r: Result<
    Vec<u8>,
    BundleError,
>)
    ensures
        if data@.len() == expected {
            r == Ok::<Vec<u8>, BundleError>(data)
        } else {
            r matches Err(BundleError::Inflated { path: p, offset: o, len: x, got }) && p@
                == path@ && o == offset && x == expected && got == data@.len()
        },
{
    let got: u64 = data.len() as u64;
    if got == expected {
        Ok(data)
    } else {
        Err(BundleError::Inflated { path: path.to_owned(), offset, len: expected, got })
    }
}

/// Decompresses an extent.
pub fn inflate_extent(compressed: &[u8], path: &str, offset: u64, expected: u64) -> (r: Result<
    Vec<u8>,
    BundleError,
>)
    ensures
        match compress::zstd_decoded(compressed@) {
            Some(data) => if data.len() == expected {
                r matches Ok(v) && v@ == data
            } else {
                r matches Err(BundleError::Inflated { path: p, offset: o, len: x, got }) && p@
                    == path@ && o == offset && x == expected && got == data.len()
            },
            None => r matches Err(BundleError::Inflate { path: p, offset: o, error: _ }) && p@
                == path@ && o == offset,
        },
{
    match compress::zstd_decode(compressed) {
        Ok(data) => check_inflated(data, path, offset, expected),
        Err(error) => Err(BundleError::Inflate { path: path.to_owned(), offset, error }),
    }
}

/// Compresses an extent for a bundle.
pub fn deflate_extent(data: &[u8]) -> (r: Result<Vec<u8>, String>)
    ensures
        match r {
            Ok(v) => compress::zstd_encoded(data@, compress::BLOCK_COMPRESSION_LEVEL as int)
                == Some(v@) && compress::zstd_decoded(v@) == Some(data@),
            Err(_) => compress::zstd_encoded(data@, compress::BLOCK_COMPRESSION_LEVEL as int)
                is None,
        },
{
    compress::zstd_encode(data, compress::BLOCK_COMPRESSION_LEVEL)
}

/// How many bytes of a bundle stand for an extent.
pub open spec fn stored_len(e: SparseExtent) -> nat {
    match e.compressed_len {
        Some(n) => n as nat,
        None => e.len as nat,
    }
}

/// The data of an extent that a bundle goes on with.
pub open spec fn stored_data(e: SparseExtent, payload: Seq<u8>) -> Option<Seq<u8>> {
    match e.compressed_len {
        Some(n) => compress::zstd_decoded(payload.take(n as int)),
        None => Some(payload.take(e.len as int)),
    }
}

/// Whether a bundle goes on with the data of a file's extents.
pub open spec fn stores(payload: Seq<u8>, extents: Seq<SparseExtent>, content: Seq<u8>) -> bool
    decreases extents.len(),
{
    extents.len() == 0 || {
        let e = extents[0];
        &&& stored_len(e) <= payload.len()
        &&& stored_data(e, payload) == Some(
            content.subrange(e.offset as int, e.offset + e.len),
        )
        &&& stores(payload.skip(stored_len(e) as int), extents.skip(1), content)
    }
}

/// Bytes with data written into them.
pub open spec fn with_data(base: Seq<u8>, offset: int, data: Seq<u8>) -> Seq<u8> {
    Seq::new(
        base.len(),
        |p: int|
            if offset <= p < offset + data.len() {
                data[p - offset]
            } else {
                base[p]
            },
    )
}

/// Bytes with the extents of a file written into them, from what a bundle goes on with.
pub open spec fn extracted(base: Seq<u8>, extents: Seq<SparseExtent>, payload: Seq<u8>) -> Seq<u8>
    decreases extents.len(),
{
    if extents.len() == 0 {
        base
    } else {
        let e = extents[0];
        let data = match stored_data(e, payload) {
            Some(d) => d,
            None => Seq::empty(),
        };
        extracted(
            with_data(base, e.offset as int, data),
            extents.skip(1),
            payload.skip(stored_len(e) as int),
        )
    }
}

proof fn lemma_extracted(
    base: Seq<u8>,
    extents: Seq<SparseExtent>,
    payload: Seq<u8>,
    content: Seq<u8>,
)
    requires
        base.len() == content.len() <= u64::MAX,
        all_in_file(extents, content.len() as u64),
        stores(payload, extents, content),
    ensures
        extracted(base, extents, payload).len() == base.len(),
        forall|p: int|
            0 <= p < base.len() ==> {
                let v = #[trigger] extracted(base, extents, payload)[p];
                v == content[p] || (v == base[p] && forall|i: int|
                    0 <= i < extents.len() ==> !((#[trigger] extents[i]).offset <= p
                        < extents[i].offset + extents[i].len))
            },
    decreases extents.len(),
{
    if extents.len() > 0 {
        let e = extents[0];
        let rest = extents.skip(1);
        let data = content.subrange(e.offset as int, e.offset + e.len);
        let next = with_data(base, e.offset as int, data);
        assert(in_file(extents[0], content.len() as u64));
        assert forall|i: int| 0 <= i < rest.len() implies in_file(
            #[trigger] rest[i],
            content.len() as u64,
        ) by {
            assert(rest[i] == extents[i + 1]);
        }
        lemma_extracted(next, rest, payload.skip(stored_len(e) as int), content);
        let r = extracted(base, extents, payload);
        assert forall|p: int| 0 <= p < base.len() implies {
            let v = #[trigger] r[p];
            v == content[p] || (v == base[p] && forall|i: int|
                0 <= i < extents.len() ==> !((#[trigger] extents[i]).offset <= p < extents[i].offset
                    + extents[i].len))
        } by {
            if r[p] != content[p] {
                assert(r[p] == next[p]);
                if e.offset <= p < e.offset + e.len {
                    assert(data[p - e.offset] == content[p]);
                } else {
                    assert forall|i: int| 0 <= i < extents.len() implies !((
                    #[trigger] extents[i]).offset <= p < extents[i].offset + extents[i].len) by {
                        if i > 0 {
                            assert(rest[i - 1] == extents[i]);
                        }
                    }
                }
            }
        }
    }
}

/// A file comes out of a bundle as it went in: it holds data only in its extents, and
/// where the bundle has the data of these, compressed or not.
pub proof fn lemma_bundle_round_trip(
    content: Seq<u8>,
    extents: Seq<SparseExtent>,
    payload: Seq<u8>,
)
    requires
        content.len() <= u64::MAX,
        all_in_file(extents, content.len() as u64),
        forall|p: int|
            0 <= p < content.len() && (forall|i: int|
                0 <= i < extents.len() ==> !((#[trigger] extents[i]).offset <= p
                    < extents[i].offset + extents[i].len)) ==> #[trigger] content[p] == 0,
    ensures
        stores(payload, extents, content) ==> extracted(
            Seq::new(content.len(), |p: int| 0u8),
            extents,
            payload,
        ) == content,
{
    let zeros = Seq::new(content.len(), |p: int| 0u8);
    if stores(payload, extents, content) {
        lemma_extracted(zeros, extents, payload, content);
        assert(extracted(zeros, extents, payload) =~= content);
    }
}

// ---------------------------------------------------------------------------
// Collecting
// ---------------------------------------------------------------------------

/// The names in the run directory that belong to a running VM.
pub open spec fn runtime_names() -> Seq<Seq<char>> {
    seq![
        "bootstrap.lock.d"@,
        "bootstrap.lock.d.guard"@,
        "owner-start.lock.d"@,
        "owner-start.lock.d.guard"@,
        "broker.sock"@,
        "checkpoint-broker.sock"@,
        "lnx-agent.sock"@,
        "lnx-snapshot.sock"@,
        "lnx-control.sock"@,
        "gvproxy.sock"@,
    ]
}

/// Whether two texts name the same path.
pub open spec fn same_path(a: Seq<char>, b: Seq<char>) -> bool {
    paths::components(a) == paths::components(b)
}

/// Whether a path lies directly in a directory.
pub open spec fn is_child(path: Seq<char>, dir: Seq<char>) -> bool {
    paths::parent_of(path) matches Some(p) && same_path(p, dir)
}

/// Whether a path is one of some names in a directory.
pub open spec fn is_named_in(path: Seq<char>, dir: Seq<char>, names: Seq<Seq<char>>) -> bool {
    exists|i: int| 0 <= i < names.len() && same_path(path, paths::joined(dir, #[trigger] names[i]))
}

/// Whether a path belongs to a running VM, or to work in progress, and is left out of a
/// bundle.
pub open spec fn is_excluded(layout: paths::Layout, path: Seq<char>) -> bool {
    match paths::name_of(path) {
        None => false,
        Some(name) => {
            ||| is_named_in(path, layout.run_dir@, runtime_names())
            ||| paths::lies_in(path, paths::joined(layout.run_dir@, "bootstrap.lock.d"@))
            ||| paths::lies_in(path, paths::joined(layout.run_dir@, "owner-start.lock.d"@))
            ||| is_child(path, layout.run_dir@) && text::ends(name, "-krun.sock"@)
            ||| is_child(path, layout.instance_dir@) && (name == ".lnx-fork-lease"@ || text::begins(
                name,
                ".lnx-descriptor-"@,
            ))
            ||| is_child(path, layout.snapshot_dir@) && is_snapshot_runtime(name)
        },
    }
}

/// Whether a name in the snapshot directory belongs to work in progress.
pub open spec fn is_snapshot_runtime(name: Seq<char>) -> bool {
    ||| name == ".restore-work"@
    ||| name == ".restore-work.active"@
    ||| name == ".latest.next"@
    ||| name == ".latest.previous"@
    ||| text::begins(name, "."@) && text::holds(name, ".clear-"@)
    ||| text::begins(name, ".final-snapshot.outcome.tmp-"@)
}

fn is_runtime_name(path: &str, dir: &str) -> (r: bool)
    ensures
        r == is_named_in(path@, dir@, runtime_names()),
{
    let mut names: Vec<&str> = Vec::new();
    names.push("bootstrap.lock.d");
    names.push("bootstrap.lock.d.guard");
    names.push("owner-start.lock.d");
    names.push("owner-start.lock.d.guard");
    names.push("broker.sock");
    names.push("checkpoint-broker.sock");
    names.push("lnx-agent.sock");
    names.push("lnx-snapshot.sock");
    names.push("lnx-control.sock");
    names.push("gvproxy.sock");
    let ghost all = runtime_names();
    assert(Seq::new(names@.len(), |i: int| names@[i]@) =~= all);
    let mut i: usize = 0;
    while i < names.len()
        invariant
            i <= names@.len(),
            all == runtime_names(),
            names@.len() == all.len(),
            forall|k: int| 0 <= k < all.len() ==> names@[k]@ == #[trigger] all[k],
            forall|k: int|
                0 <= k < i ==> !same_path(path@, paths::joined(dir@, #[trigger] all[k])),
        decreases names@.len() - i,
    {
        assert(names@[i as int]@ == all[i as int]);
        if paths::same_path(path, paths::join(dir, names[i]).as_str()) {
            return true;
        }
        i = i + 1;
    }
    false
}

fn child_of(path: &str, dir: &str) -> (r: bool)
    ensures
        r == is_child(path@, dir@),
{
    match paths::parent(path) {
        Some(p) => paths::same_path(p.as_str(), dir),
        None => false,
    }
}

fn snapshot_runtime_name(name: &str) -> (r: bool)
    ensures
        r == is_snapshot_runtime(name@),
{
    text::same(name, ".restore-work") || text::same(name, ".restore-work.active") || text::same(
        name,
        ".latest.next",
    ) || text::same(name, ".latest.previous") || (text::starts_with(name, ".") && text::contains(
        name,
        ".clear-",
    )) || text::starts_with(name, ".final-snapshot.outcome.tmp-")
}

/// Whether a path belongs to a running VM, or to work in progress, and is left out of a
/// bundle.
pub fn bundle_runtime_path_is_excluded(layout: &paths::Layout, path: &str) -> (r: bool)
    ensures
        r == is_excluded(*layout, path@),
{
    let name: String = match paths::file_name(path) {
        None => return false,
        Some(name) => name,
    };
    let run_dir: &str = layout.run_dir.as_str();
    if is_runtime_name(path, run_dir) {
        return true;
    }
    if paths::path_starts_with(path, paths::join(run_dir, "bootstrap.lock.d").as_str())
        || paths::path_starts_with(path, paths::join(run_dir, "owner-start.lock.d").as_str()) {
        return true;
    }
    if child_of(path, run_dir) && text::ends_with(name.as_str(), "-krun.sock") {
        return true;
    }
    if child_of(path, layout.instance_dir.as_str()) && (text::same(name.as_str(), ".lnx-fork-lease")
        || text::starts_with(name.as_str(), ".lnx-descriptor-")) {
        return true;
    }
    child_of(path, layout.snapshot_dir.as_str()) && snapshot_runtime_name(name.as_str())
}

/// Whether the kernel goes into a bundle: where it lies beside the instances, and is
/// there.
pub fn bundles_kernel(layout: &paths::Layout, kernel_exists: bool) -> (r: bool)
    ensures
        r == (kernel_exists && same_path(
            layout.kernel@,
            paths::joined(layout.base@, "vmlinuz"@),
        )),
{
    kernel_exists && paths::same_path(
        layout.kernel.as_str(),
        paths::join(layout.base.as_str(), "vmlinuz").as_str(),
    )
}

/// A file that goes into a bundle.
#[derive(Debug, PartialEq, Eq)]
pub struct CollectedFile {
    pub relative: String,
    pub source: String,
    pub len: u64,
    pub mode: u32,
    pub extents: Vec<Span>,
}

/// A file that goes into a bundle, by its name in it.
pub fn collect_sparse_bundle_file(
    base: &str,
    path: &str,
    len: u64,
    mode: u32,
    extents: Vec<Span>,
) -> (r: Result<CollectedFile, BundleError>)
    ensures
        match paths::relative_to(path@, base@) {
            Some(relative) => r matches Ok(f) && f.relative@ == relative && f.source@ == path@
                && f.len == len && f.mode == kept_mode(mode) && f.extents == extents,
            None => r matches Err(BundleError::NotBelow { path: p, base: b }) && p@ == path@ && b@
                == base@,
        },
{
    match paths::strip_prefix(path, base) {
        Some(relative) => Ok(
            CollectedFile { relative, source: path.to_owned(), len, mode: mode % 4096, extents },
        ),
        None => Err(BundleError::NotBelow { path: path.to_owned(), base: base.to_owned() }),
    }
}

/// Files ordered by their names: a file goes behind those whose names are not after its
/// own.
pub open spec fn placed(files: Seq<CollectedFile>, f: CollectedFile) -> Seq<CollectedFile>
    decreases files.len(),
{
    if files.len() == 0 || text::text_order(files.last().relative@, f.relative@) <= 0 {
        files.push(f)
    } else {
        placed(files.drop_last(), f).push(files.last())
    }
}

/// Files in the order of their names; those with the same name stay as they were.
pub open spec fn ordered(files: Seq<CollectedFile>) -> Seq<CollectedFile>
    decreases files.len(),
{
    if files.len() == 0 {
        Seq::empty()
    } else {
        placed(ordered(files.drop_last()), files.last())
    }
}

fn place_of(files: &Vec<CollectedFile>, f: &CollectedFile) -> (i: usize)
    ensures
        i <= files@.len(),
        files@.insert(i as int, *f) == placed(files@, *f),
{
    let ghost all = files@;
    let mut i: usize = files.len();
    assert(all.take(i as int) =~= all);
    assert(all.skip(i as int) =~= Seq::<CollectedFile>::empty());
    assert(placed(all, *f) + Seq::<CollectedFile>::empty() =~= placed(all, *f));
    while i > 0 && text::order_of_texts(files[i - 1].relative.as_str(), f.relative.as_str()) > 0
        invariant
            i <= files@.len(),
            all == files@,
            placed(all, *f) == placed(all.take(i as int), *f) + all.skip(i as int),
        decreases i,
    {
        proof {
            let front = all.take(i as int);
            assert(front.last() == all[i - 1]);
            assert(front.drop_last() =~= all.take(i - 1));
            assert(placed(all.take(i - 1), *f).push(front.last()) + all.skip(i as int) =~= placed(
                all.take(i - 1),
                *f,
            ) + all.skip(i - 1));
        }
        i = i - 1;
    }
    proof {
        let front = all.take(i as int);
        if i > 0 {
            assert(front.last() == all[i - 1]);
        }
        assert(placed(front, *f) == front.push(*f));
        assert(all.insert(i as int, *f) =~= front.push(*f) + all.skip(i as int));
    }
    i
}

/// Adds a file to files in the order of their names.
pub fn add_collected(files: &mut Vec<CollectedFile>, f: CollectedFile)
    ensures
        final(files)@ == placed(old(files)@, f),
{
    let at: usize = place_of(files, &f);
    files.insert(at, f);
}

/// Files that are added one after another come out in the order of their names.
pub proof fn lemma_collected_in_order(files: Seq<CollectedFile>)
    ensures
        forall|i: int, j: int|
            0 <= i <= j < ordered(files).len() ==> text::text_order(
                (#[trigger] ordered(files)[i]).relative@,
                (#[trigger] ordered(files)[j]).relative@,
            ) <= 0,
        ordered(files).len() == files.len(),
        ordered(files).to_multiset() == files.to_multiset(),
    decreases files.len(),
{
    broadcast use vstd::seq_lib::group_to_multiset_ensures;

    if files.len() > 0 {
        lemma_collected_in_order(files.drop_last());
        lemma_placed(ordered(files.drop_last()), files.last());
        assert(files =~= files.drop_last().push(files.last()));
    }
}

proof fn lemma_placed(files: Seq<CollectedFile>, f: CollectedFile)
    requires
        forall|i: int, j: int|
            0 <= i <= j < files.len() ==> text::text_order(
                (#[trigger] files[i]).relative@,
                (#[trigger] files[j]).relative@,
            ) <= 0,
    ensures
        forall|i: int, j: int|
            0 <= i <= j < placed(files, f).len() ==> text::text_order(
                (#[trigger] placed(files, f)[i]).relative@,
                (#[trigger] placed(files, f)[j]).relative@,
            ) <= 0,
        placed(files, f).len() == files.len() + 1,
        placed(files, f).to_multiset() == files.to_multiset().insert(f),
        forall|i: int|
            0 <= i < files.len() + 1 ==> (#[trigger] placed(files, f)[i] == f || exists|k: int|
                0 <= k < files.len() && placed(files, f)[i] == #[trigger] files[k]),
    decreases files.len(),
{
    broadcast use vstd::seq_lib::group_to_multiset_ensures;

    let r = placed(files, f);
    if files.len() == 0 || text::text_order(files.last().relative@, f.relative@) <= 0 {
        assert forall|i: int, j: int| 0 <= i <= j < r.len() implies text::text_order(
            (#[trigger] r[i]).relative@,
            (#[trigger] r[j]).relative@,
        ) <= 0 by {
            text::lemma_text_order(f.relative@, f.relative@, f.relative@);
            if j == files.len() && i < files.len() {
                assert(text::text_order(files[i].relative@, files[files.len() - 1].relative@)
                    <= 0);
                text::lemma_text_order(files[i].relative@, files.last().relative@, f.relative@);
            }
        }
        assert forall|i: int| 0 <= i < files.len() implies r[i] == files[i] by {}
    } else {
        let front = files.drop_last();
        let last = files.last();
        lemma_placed(front, f);
        let g = placed(front, f);
        assert(files =~= front.push(last));
        text::lemma_text_order(last.relative@, f.relative@, f.relative@);
        assert forall|i: int| 0 <= i < g.len() implies text::text_order(
            (#[trigger] g[i]).relative@,
            last.relative@,
        ) <= 0 by {
            if g[i] != f {
                let k = choose|k: int| 0 <= k < front.len() && g[i] == #[trigger] front[k];
                assert(front[k] == files[k]);
                assert(text::text_order(files[k].relative@, files[files.len() - 1].relative@)
                    <= 0);
            }
        }
        assert forall|i: int, j: int| 0 <= i <= j < r.len() implies text::text_order(
            (#[trigger] r[i]).relative@,
            (#[trigger] r[j]).relative@,
        ) <= 0 by {
            if j == g.len() {
                text::lemma_text_order(last.relative@, last.relative@, last.relative@);
            } else {
                assert(r[i] == g[i] && r[j] == g[j]);
            }
        }
        assert forall|i: int| 0 <= i < files.len() + 1 implies (#[trigger] r[i] == f || exists|
            k: int,
        |
            0 <= k < files.len() && r[i] == #[trigger] files[k]) by {
            if i == g.len() {
                assert(r[i] == files[files.len() - 1]);
            } else if g[i] != f {
                let k = choose|k: int| 0 <= k < front.len() && g[i] == #[trigger] front[k];
                assert(files[k] == front[k]);
            }
        }
        assert(files.to_multiset() =~= front.to_multiset().insert(last));
        assert(r.to_multiset() =~= files.to_multiset().insert(f));
    }
}

// ---------------------------------------------------------------------------
// Laws of extraction
// ---------------------------------------------------------------------------

/// Every extent that lies in its file is written, in its order: copied, or inflated where
/// it is compressed. Behind one that does not lie in it nothing is written.
pub proof fn lemma_every_extent_is_written(
    a: Seq<SparseExtent>,
    b: Seq<SparseExtent>,
    e: SparseExtent,
    len: u64,
)
    ensures
        all_in_file(a, len) ==> extent_steps(a + b, len) == extent_steps(a, len) + extent_steps(
            b,
            len,
        ),
        all_in_file(a, len) ==> extent_steps(a, len).len() == a.len(),
        e.offset + e.len <= len ==> extent_steps(seq![e], len) == seq![
            match e.compressed_len {
                Some(n) => StepView::Inflate(e.offset, n, e.len),
                None => StepView::Copy(e.offset, e.len),
            },
        ],
        e.offset + e.len > len ==> extent_steps(seq![e] + b, len) == Seq::<StepView>::empty(),
        extent_steps(Seq::<SparseExtent>::empty(), len) == Seq::<StepView>::empty(),
    decreases a.len(),
{
    reveal_with_fuel(extent_steps, 2);
    assert(seq![e].skip(1) =~= Seq::<SparseExtent>::empty());
    assert((seq![e] + b)[0] == e);
    assert(extent_steps(seq![e].skip(1), len) == Seq::<StepView>::empty());
    if e.offset + e.len <= len {
        assert(extent_steps(seq![e], len) =~= seq![extent_step(e)]);
    }
    if all_in_file(a, len) {
        if a.len() == 0 {
            assert(a + b =~= b);
            assert(extent_steps(a, len) + extent_steps(b, len) =~= extent_steps(b, len));
        } else {
            let rest = a.skip(1);
            assert(in_file(a[0], len));
            assert forall|i: int| 0 <= i < rest.len() implies in_file(#[trigger] rest[i], len) by {
                assert(rest[i] == a[i + 1]);
            }
            lemma_every_extent_is_written(rest, b, e, len);
            assert((a + b).skip(1) =~= rest + b);
            assert((a + b)[0] == a[0]);
            assert(extent_steps(a + b, len) =~= extent_steps(a, len) + extent_steps(b, len));
        }
    }
}

/// Every file that can be extracted is: it is created with its length, its extents are
/// written, and it gets the permission bits of its mode. Files come in their order, and
/// nothing comes behind one that is wrong.
#[verifier::spinoff_prover]
#[verifier::rlimit(40)]
pub proof fn lemma_every_file_is_extracted(
    a: Seq<SparseBundleFile>,
    b: Seq<SparseBundleFile>,
    f: SparseBundleFile,
)
    ensures
        (forall|i: int| 0 <= i < a.len() ==> is_good_file(#[trigger] a[i])) ==> file_steps(a + b)
            == file_steps(a) + file_steps(b),
        is_good_file(f) ==> file_steps(seq![f]) == seq![StepView::Create(f.path@, f.len)]
            + extent_steps(f.extents@, f.len) + seq![StepView::SetMode(f.mode & 0xfff)],
        !is_good_file(f) ==> file_steps(seq![f] + b) == file_steps(seq![f]),
        !cas::is_safe_path(f.path@) ==> file_steps(seq![f]) == Seq::<StepView>::empty(),
        file_steps(Seq::<SparseBundleFile>::empty()) == Seq::<StepView>::empty(),
    decreases a.len(),
{
    reveal_with_fuel(file_steps, 2);
    let mode = f.mode;
    assert(mode % 4096 == mode & 0xfff) by (bit_vector);
    assert(seq![f].skip(1) =~= Seq::<SparseBundleFile>::empty());
    assert((seq![f] + b)[0] == f);
    let own = seq![StepView::Create(f.path@, f.len)] + extent_steps(f.extents@, f.len);
    if is_good_file(f) {
        let one = own + seq![StepView::SetMode(kept_mode(f.mode))];
        assert(one + Seq::<StepView>::empty() =~= one);
        assert(file_steps(seq![f]) =~= one);
    }
    if forall|i: int| 0 <= i < a.len() ==> is_good_file(#[trigger] a[i]) {
        if a.len() == 0 {
            assert(a + b =~= b);
            assert(file_steps(a) + file_steps(b) =~= file_steps(b));
        } else {
            let rest = a.skip(1);
            assert(is_good_file(a[0]));
            assert forall|i: int| 0 <= i < rest.len() implies is_good_file(#[trigger] rest[i]) by {
                assert(rest[i] == a[i + 1]);
            }
            lemma_every_file_is_extracted(rest, b, f);
            assert((a + b).skip(1) =~= rest + b);
            assert((a + b)[0] == a[0]);
            assert(file_steps(a + b) =~= file_steps(a) + file_steps(b));
        }
    }
}

/// The file that stops an extraction is the first that cannot be extracted.
pub proof fn lemma_what_stops_an_extraction(files: Seq<SparseBundleFile>)
    ensures
        match first_bad(files) {
            Some(f) => exists|i: int|
                0 <= i < files.len() && #[trigger] files[i] == f && !is_good_file(f) && (forall|
                    j: int,
                |
                    0 <= j < i ==> is_good_file(#[trigger] files[j])),
            None => forall|i: int| 0 <= i < files.len() ==> is_good_file(#[trigger] files[i]),
        },
    decreases files.len(),
{
    if files.len() > 0 && is_good_file(files[0]) {
        let rest = files.skip(1);
        lemma_what_stops_an_extraction(rest);
        match first_bad(rest) {
            Some(f) => {
                let i = choose|i: int|
                    0 <= i < rest.len() && #[trigger] rest[i] == f && !is_good_file(f) && (forall|
                        j: int,
                    |
                        0 <= j < i ==> is_good_file(#[trigger] rest[j]));
                assert(files[i + 1] == f);
                assert forall|j: int| 0 <= j < i + 1 implies is_good_file(#[trigger] files[j]) by {
                    if j > 0 {
                        assert(rest[j - 1] == files[j]);
                    }
                }
            },
            None => {
                assert forall|i: int| 0 <= i < files.len() implies is_good_file(
                    #[trigger] files[i],
                ) by {
                    if i > 0 {
                        assert(rest[i - 1] == files[i]);
                    }
                }
            },
        }
    } else if files.len() > 0 {
        assert(files[0] == files[0]);
    }
}

// ---------------------------------------------------------------------------
// Laws of what is left out of a bundle
// ---------------------------------------------------------------------------

/// Whether a name is that of a lock or a socket of a running VM.
pub open spec fn is_runtime_word(name: Seq<char>) -> bool {
    ||| name == "bootstrap.lock.d"@
    ||| name == "bootstrap.lock.d.guard"@
    ||| name == "owner-start.lock.d"@
    ||| name == "owner-start.lock.d.guard"@
    ||| name == "broker.sock"@
    ||| name == "checkpoint-broker.sock"@
    ||| name == "lnx-agent.sock"@
    ||| name == "lnx-snapshot.sock"@
    ||| name == "lnx-control.sock"@
    ||| name == "gvproxy.sock"@
}

#[verifier::spinoff_prover]
#[verifier::rlimit(40)]
proof fn lemma_runtime_names(name: Seq<char>)
    ensures
        runtime_names().contains(name) <==> is_runtime_word(name),
        is_runtime_word(name) ==> name.len() > 2 && !name.contains('/'),
{
    reveal_strlit("bootstrap.lock.d");
    reveal_strlit("bootstrap.lock.d.guard");
    reveal_strlit("owner-start.lock.d");
    reveal_strlit("owner-start.lock.d.guard");
    reveal_strlit("broker.sock");
    reveal_strlit("checkpoint-broker.sock");
    reveal_strlit("lnx-agent.sock");
    reveal_strlit("lnx-snapshot.sock");
    reveal_strlit("lnx-control.sock");
    reveal_strlit("gvproxy.sock");
    let names = runtime_names();
    assert(names[0] == "bootstrap.lock.d"@ && names[1] == "bootstrap.lock.d.guard"@ && names[2]
        == "owner-start.lock.d"@ && names[3] == "owner-start.lock.d.guard"@ && names[4]
        == "broker.sock"@ && names[5] == "checkpoint-broker.sock"@ && names[6]
        == "lnx-agent.sock"@ && names[7] == "lnx-snapshot.sock"@ && names[8]
        == "lnx-control.sock"@ && names[9] == "gvproxy.sock"@);
    if names.contains(name) {
        let i = choose|i: int| 0 <= i < names.len() && names[i] == name;
        assert(0 <= i < 10);
    }
}

proof fn lemma_named_in(path: Seq<char>, dir: Seq<char>, name: Seq<char>)
    requires
        paths::name_of(path) == Some(name),
    ensures
        is_named_in(path, dir, runtime_names()) <==> is_child(path, dir) && is_runtime_word(name),
{
    let names = runtime_names();
    paths::lemma_parent_and_name(path);
    lemma_runtime_names(name);
    let parts = paths::components(path);
    assert(parts =~= parts.drop_last().push(name));
    if is_child(path, dir) && is_runtime_word(name) {
        let i = choose|i: int| 0 <= i < names.len() && names[i] == name;
        paths::lemma_name_in_directory(dir, name);
        assert(same_path(path, paths::joined(dir, names[i])));
    }
    if is_named_in(path, dir, names) {
        let i = choose|i: int|
            0 <= i < names.len() && same_path(path, paths::joined(dir, #[trigger] names[i]));
        assert(names.contains(names[i]));
        lemma_runtime_names(names[i]);
        paths::lemma_name_in_directory(dir, names[i]);
        assert(parts == paths::components(dir).push(names[i]));
        assert(parts.last() == names[i]);
        assert(parts.drop_last() =~= paths::components(dir));
    }
}

/// What a bundle leaves out, by the directory that a path lies in and the name it has
/// there: locks and sockets of a running VM, leases and half-made files of the instance,
/// and what a snapshot leaves while it is made or restored. Everything else is bundled.
pub proof fn lemma_what_is_left_out(layout: paths::Layout, path: Seq<char>, name: Seq<char>)
    requires
        paths::name_of(path) == Some(name),
    ensures
        is_excluded(layout, path) <==> {
            ||| is_child(path, layout.run_dir@) && (is_runtime_word(name) || exists|front: Seq<char>|
                name == #[trigger] (front + "-krun.sock"@))
            ||| paths::lies_in(path, paths::joined(layout.run_dir@, "bootstrap.lock.d"@))
            ||| paths::lies_in(path, paths::joined(layout.run_dir@, "owner-start.lock.d"@))
            ||| is_child(path, layout.instance_dir@) && (name == ".lnx-fork-lease"@ || exists|
                rest: Seq<char>,
            |
                name == #[trigger] (".lnx-descriptor-"@ + rest))
            ||| is_child(path, layout.snapshot_dir@) && (name == ".restore-work"@ || name
                == ".restore-work.active"@ || name == ".latest.next"@ || name
                == ".latest.previous"@ || (name.len() > 0 && name[0] == '.' && text::holds(
                name,
                ".clear-"@,
            )) || exists|rest: Seq<char>|
                name == #[trigger] (".final-snapshot.outcome.tmp-"@ + rest))
        },
{
    lemma_named_in(path, layout.run_dir@, name);
    text::lemma_parts_occur(name, "-krun.sock"@, name);
    text::lemma_parts_occur(name, ".lnx-descriptor-"@, name);
    text::lemma_parts_occur(name, ".final-snapshot.outcome.tmp-"@, name);
    reveal_strlit(".");
    assert("."@ =~= seq!['.']);
    assert(text::begins(name, "."@) <==> name.len() > 0 && name[0] == '.') by {
        if name.len() > 0 {
            assert(name.subrange(0, 1)[0] == name[0]);
            if name[0] == '.' {
                assert(name.subrange(0, 1) =~= "."@);
            }
        }
    }
}

/// When a bundle's header is taken, and what is wrong where it is not: it has to begin with
/// the eight bytes `LNXSBX1` and an end of line, and its manifest may have sixteen MiB.
pub proof fn lemma_headers(s: Seq<u8>)
    ensures
        ({
            let magic = s.len() >= 8 && s[0] == 0x4c && s[1] == 0x4e && s[2] == 0x58 && s[3] == 0x53
                && s[4] == 0x42 && s[5] == 0x58 && s[6] == 0x31 && s[7] == 0x0a;
            let len = bytes::le_value(s.subrange(8, 16));
            &&& header_of(s) is Ok <==> magic && s.len() >= 16 && len <= 16 * 1024 * 1024
            &&& header_of(s) matches Ok(n) ==> n == len
            &&& header_of(s) matches Err(e) ==> {
                &&& e is NoMagic <==> s.len() < 8
                &&& e is BadMagic <==> s.len() >= 8 && !magic
                &&& e is NoLength <==> magic && s.len() < 16
                &&& e is TooLarge <==> magic && s.len() >= 16 && len > 16 * 1024 * 1024
            }
        }),
{
    if s.len() >= 8 {
        let t = s.take(8);
        let m = bundle_magic();
        if t == m {
            assert(t[0] == m[0] && t[1] == m[1] && t[2] == m[2] && t[3] == m[3] && t[4] == m[4]
                && t[5] == m[5] && t[6] == m[6] && t[7] == m[7]);
        }
        if s[0] == 0x4c && s[1] == 0x4e && s[2] == 0x58 && s[3] == 0x53 && s[4] == 0x42 && s[5]
            == 0x58 && s[6] == 0x31 && s[7] == 0x0a {
            assert(t =~= m);
        }
    }
}

/// A file is put behind all that do not come after it, and all others stay where they were.
pub proof fn lemma_placing_adds_one(files: Seq<CollectedFile>, f: CollectedFile)
    ensures
        exists|i: int|
            0 <= i <= files.len() && #[trigger] files.insert(i, f) == placed(files, f) && (i > 0
                ==> text::text_order(files[i - 1].relative@, f.relative@) <= 0) && (forall|k: int|
                i <= k < files.len() ==> text::text_order(
                    (#[trigger] files[k]).relative@,
                    f.relative@,
                ) > 0),
    decreases files.len(),
{
    if files.len() == 0 || text::text_order(files.last().relative@, f.relative@) <= 0 {
        assert(files.insert(files.len() as int, f) =~= files.push(f));
    } else {
        let front = files.drop_last();
        lemma_placing_adds_one(front, f);
        let i = choose|i: int|
            0 <= i <= front.len() && #[trigger] front.insert(i, f) == placed(front, f) && (i > 0
                ==> text::text_order(front[i - 1].relative@, f.relative@) <= 0) && (forall|k: int|
                i <= k < front.len() ==> text::text_order(
                    (#[trigger] front[k]).relative@,
                    f.relative@,
                ) > 0);
        assert(files.insert(i, f) =~= front.insert(i, f).push(files.last()));
        assert forall|k: int| i <= k < files.len() implies text::text_order(
            (#[trigger] files[k]).relative@,
            f.relative@,
        ) > 0 by {
            if k < front.len() {
                assert(front[k] == files[k]);
            }
        }
        if i > 0 {
            assert(front[i - 1] == files[i - 1]);
        }
    }
}

/// What is looked at of the steps of an extraction: all that each of them says, in their
/// order.
pub proof fn lemma_view_of_steps(
    steps: Seq<ExtractStep>,
    path: String,
    offset: u64,
    len: u64,
    compressed_len: u64,
    mode: u32,
)
    ensures
        step_views(steps).len() == steps.len(),
        forall|i: int| 0 <= i < steps.len() ==> #[trigger] step_views(steps)[i] == steps[i]@,
        (ExtractStep::Create { path, len })@ == StepView::Create(path@, len),
        (ExtractStep::Copy { offset, len })@ == StepView::Copy(offset, len),
        (ExtractStep::Inflate { offset, compressed_len, len })@ == StepView::Inflate(
            offset,
            compressed_len,
            len,
        ),
        (ExtractStep::SetMode { mode })@ == StepView::SetMode(mode),
{
}

} // verus!
