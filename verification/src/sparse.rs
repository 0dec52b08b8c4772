//! Sparse files: where their data is, and how they are copied without filling their
//! holes.
use vstd::prelude::*;

use crate::cas::Span;
use crate::text;

verus! {

/// From which size on a file must stay sparse.
pub const LARGE_SPARSE_IMAGE_BYTES: u64 = 8589934592;

/// Whether a file is sparse enough to be copied: a large one must have at most half of
/// its size allocated.
pub open spec fn is_sparse_safe(len: u64, allocated: u64) -> bool {
    len < LARGE_SPARSE_IMAGE_BYTES || allocated <= len / 2
}

/// Whether a file is sparse enough to be copied.
pub fn clone_is_sparse_safe(len: u64, allocated: u64) -> (r: bool)
    ensures
        r == is_sparse_safe(len, allocated),
{
    len < LARGE_SPARSE_IMAGE_BYTES || allocated <= len / 2
}

/// Whether a file is large and sparse.
pub open spec fn is_large_sparse(len: u64, allocated: u64) -> bool {
    len >= LARGE_SPARSE_IMAGE_BYTES && allocated <= len / 2
}

/// Whether a file is large and sparse, so that its holes must be found.
pub fn is_large_sparse_transfer(len: u64, allocated: u64) -> (r: bool)
    ensures
        r == is_large_sparse(len, allocated),
{
    len >= LARGE_SPARSE_IMAGE_BYTES && allocated <= len / 2
}

// ---------------------------------------------------------------------------
// Extents
// ---------------------------------------------------------------------------

/// Whether a large sparse file is said to be all data.
pub open spec fn is_suspicious(len: u64, allocated: u64, extents: Seq<Span>) -> bool {
    is_large_sparse(len, allocated) && extents.len() == 1 && extents[0].offset == 0
        && extents[0].len == len
}

/// Whether a large sparse file is said to be all data.
pub fn is_suspicious_dense_extent_report(len: u64, allocated: u64, extents: &Vec<Span>) -> (r: bool)
    ensures
        r == is_suspicious(len, allocated, extents@),
{
    is_large_sparse_transfer(len, allocated) && extents.len() == 1 && extents[0].offset == 0
        && extents[0].len == len
}

/// Why the data of a file cannot be found.
#[derive(Debug, PartialEq, Eq)]
pub enum ExtentError {
    Dense { path: String },
    Unknown { path: String, error: String },
}

impl ExtentError {
    /// The message shown to the user.
    pub open spec fn text(self) -> Seq<char> {
        match self {
            ExtentError::Dense { path } => "filesystem reports "@ + path@
                + " as one dense extent; refusing to expand sparse image"@,
            ExtentError::Unknown { path, error } => "discover sparse extents for "@ + path@ + ": "@
                + error@,
        }
    }

    /// The message shown to the user.
    pub fn message(&self) -> (m: String)
        ensures
            m@ == self.text(),
    {
        match self {
            ExtentError::Dense { path } => {
                let mut m: String = "filesystem reports ".to_owned();
                m.append(path.as_str());
                m.append(" as one dense extent; refusing to expand sparse image");
                m
            },
            ExtentError::Unknown { path, error } => {
                let mut m: String = "discover sparse extents for ".to_owned();
                m.append(path.as_str());
                m.append(": ");
                m.append(error.as_str());
                m
            },
        }
    }
}

/// Where the data of a file is. `found` is what the operating system says. Where it cannot
/// say, a file that is not large and sparse is taken as all data.
pub fn sparse_file_extents(path: &str, len: u64, allocated: u64, found: Result<Vec<Span>, String>) -> (
    r: Result<Vec<Span>, ExtentError>)
    ensures
        len == 0 ==> (r matches Ok(extents) && extents@.len() == 0),
        len > 0 ==> match found {
            Ok(extents) => if is_suspicious(len, allocated, extents@) {
                r matches Err(ExtentError::Dense { path: p }) && p@ == path@
            } else {
                r == Ok::<Vec<Span>, ExtentError>(extents)
            },
            Err(why) => if is_large_sparse(len, allocated) {
                r matches Err(ExtentError::Unknown { path: p, error }) && p@ == path@ && error@
                    == why@
            } else {
                r matches Ok(extents) && extents@ == seq![Span { offset: 0, len }]
            },
        },
{
    if len == 0 {
        return Ok(Vec::new());
    }
    match found {
        Ok(extents) => if is_suspicious_dense_extent_report(len, allocated, &extents) {
            Err(ExtentError::Dense { path: path.to_owned() })
        } else {
            Ok(extents)
        },
        Err(why) => if is_large_sparse_transfer(len, allocated) {
            Err(ExtentError::Unknown { path: path.to_owned(), error: why })
        } else {
            let mut extents: Vec<Span> = Vec::new();
            extents.push(Span { offset: 0, len });
            assert(extents@ =~= seq![Span { offset: 0, len }]);
            Ok(extents)
        },
    }
}

/// A file whose data is looked for from its start to its end.
#[derive(Debug, PartialEq, Eq)]
pub struct ExtentWalk {
    pub len: u64,
    pub offset: u64,
    pub extents: Vec<Span>,
}

/// Where the next look begins after data was found at `data` and a hole behind it at
/// `hole`.
pub open spec fn walk_end(len: u64, hole: u64) -> u64 {
    if hole < len {
        hole
    } else {
        len
    }
}

/// The extents with data that was found at `data` and ends at `hole`, or at the end of the
/// file. Where the hole is not behind the data, there is none.
pub open spec fn walked(len: u64, extents: Seq<Span>, data: u64, hole: u64) -> Seq<Span> {
    let end = walk_end(len, hole);
    if end > data {
        extents.push(Span { offset: data, len: (end - data) as u64 })
    } else {
        extents
    }
}

/// Whether extents are in order, do not touch what is looked at next, and are not empty.
pub open spec fn are_ordered(extents: Seq<Span>, offset: u64) -> bool {
    &&& forall|i: int|
        0 <= i < extents.len() ==> (#[trigger] extents[i]).len > 0 && extents[i].offset
            + extents[i].len <= offset
    &&& forall|i: int, j: int|
        0 <= i < j < extents.len() ==> (#[trigger] extents[i]).offset + extents[i].len <= (
        #[trigger] extents[j]).offset
}

impl ExtentWalk {
    /// The start of a file.
    pub fn new(len: u64) -> (r: ExtentWalk)
        ensures
            r.len == len,
            r.offset == 0,
            r.extents@.len() == 0,
    {
        ExtentWalk { len, offset: 0, extents: Vec::new() }
    }

    /// Whether the end is reached.
    pub fn is_done(&self) -> (r: bool)
        ensures
            r == (self.offset >= self.len),
    {
        self.offset >= self.len
    }

    /// Goes on behind data that was found at `data` and ends at `hole`.
    pub fn found(&mut self, data: u64, hole: u64)
        ensures
            final(self).len == old(self).len,
            final(self).offset == walk_end(old(self).len, hole),
            final(self).extents@ == walked(old(self).len, old(self).extents@, data, hole),
    {
        let end: u64 = if hole < self.len {
            hole
        } else {
            self.len
        };
        if end > data {
            self.extents.push(Span { offset: data, len: end - data });
        }
        self.offset = end;
    }
}

/// Where each look finds data at or behind its place, and a hole behind that, the extents
/// stay in order, in the file, and apart from each other.
pub proof fn lemma_walk_keeps_order(len: u64, offset: u64, extents: Seq<Span>, data: u64, hole: u64)
    requires
        are_ordered(extents, offset),
        offset <= data < hole,
        offset < len,
    ensures
        are_ordered(walked(len, extents, data, hole), walk_end(len, hole)),
        walk_end(len, hole) <= len,
        walk_end(len, hole) > offset,
{
    let next = walked(len, extents, data, hole);
    let end = walk_end(len, hole);
    assert forall|i: int| 0 <= i < next.len() implies (#[trigger] next[i]).len > 0 && next[i].offset
        + next[i].len <= end by {
        if i < extents.len() {
            assert(next[i] == extents[i]);
        }
    }
    assert forall|i: int, j: int| 0 <= i < j < next.len() implies (#[trigger] next[i]).offset
        + next[i].len <= (#[trigger] next[j]).offset by {
        assert(next[i] == extents[i]);
        if j < extents.len() {
            assert(next[j] == extents[j]);
        }
    }
}

// ---------------------------------------------------------------------------
// Copies
// ---------------------------------------------------------------------------

/// The message for a file that is not copied.
pub fn dense_source_message(path: &str, len: u64, allocated: u64) -> (m: String)
    ensures
        m@ == "source is not sparse-safe to clone: "@ + path@ + " len="@ + text::dec(len as nat)
            + " allocated="@ + text::dec(allocated as nat),
{
    let mut m: String = "source is not sparse-safe to clone: ".to_owned();
    m.append(path);
    m.append(" len=");
    text::push_dec(&mut m, len as u128);
    m.append(" allocated=");
    text::push_dec(&mut m, allocated as u128);
    m
}

/// How a file is copied.
#[derive(Clone, Copy, PartialEq, Eq, Structural, Debug)]
pub enum CopyStep {
    /// Have the file system share the data.
    Clone,
    /// Copy all bytes.
    CopyAll,
    /// Copy the bytes of each extent.
    CopyExtents,
    /// Give the copy the times and the mode of the source: it is done.
    Finish,
    /// Remove the copy: it filled the holes.
    RemoveDense,
    /// The source fills its holes.
    Refuse,
    Fail,
}

/// Why a file system does not share data.
#[derive(Clone, Copy, PartialEq, Eq, Structural, Debug)]
pub enum CloneError {
    NotSupported,
    CrossDevice,
    InvalidArgument,
    NotATerminal,
    Other,
}

/// Whether a file that cannot be shared can still be copied.
pub fn ficlone_can_fall_back(error: CloneError) -> (r: bool)
    ensures
        r == (error != CloneError::Other),
{
    match error {
        CloneError::Other => false,
        _ => true,
    }
}

/// What came of a step of copying a file. The allocated size is that of the copy.
#[derive(Clone, Copy, PartialEq, Eq, Structural, Debug)]
pub enum CopySeen {
    /// Nothing was done yet; the allocated size is that of the source.
    Begin { allocated: u64 },
    Cloned { allocated: u64 },
    NotCloned(CloneError),
    Copied { allocated: u64 },
}

/// The next step of copying a file: share its data, or else copy it; a large file is
/// copied by its extents, and a copy that filled the holes is removed.
pub open spec fn copy_response(len: u64, seen: CopySeen) -> CopyStep {
    match seen {
        CopySeen::Begin { allocated } => if is_sparse_safe(len, allocated) {
            CopyStep::Clone
        } else {
            CopyStep::Refuse
        },
        CopySeen::Cloned { allocated } => if is_sparse_safe(len, allocated) {
            CopyStep::Finish
        } else {
            CopyStep::RemoveDense
        },
        CopySeen::NotCloned(e) => if e == CloneError::Other {
            CopyStep::Fail
        } else if len < LARGE_SPARSE_IMAGE_BYTES {
            CopyStep::CopyAll
        } else {
            CopyStep::CopyExtents
        },
        CopySeen::Copied { allocated } => if is_sparse_safe(len, allocated) {
            CopyStep::Finish
        } else {
            CopyStep::RemoveDense
        },
    }
}

/// Decides the next step of copying a file.
pub fn copy_step(len: u64, seen: CopySeen) -> (r: CopyStep)
    ensures
        r == copy_response(len, seen),
{
    match seen {
        CopySeen::Begin { allocated } => if clone_is_sparse_safe(len, allocated) {
            CopyStep::Clone
        } else {
            CopyStep::Refuse
        },
        CopySeen::Cloned { allocated } => if clone_is_sparse_safe(len, allocated) {
            CopyStep::Finish
        } else {
            CopyStep::RemoveDense
        },
        CopySeen::NotCloned(e) => if !ficlone_can_fall_back(e) {
            CopyStep::Fail
        } else if len < LARGE_SPARSE_IMAGE_BYTES {
            CopyStep::CopyAll
        } else {
            CopyStep::CopyExtents
        },
        CopySeen::Copied { allocated } => if clone_is_sparse_safe(len, allocated) {
            CopyStep::Finish
        } else {
            CopyStep::RemoveDense
        },
    }
}

/// A large image never becomes a dense copy: it is not finished with more than half of
/// its size allocated, and its bytes are not all copied.
pub proof fn lemma_large_images_stay_sparse(len: u64, seen: CopySeen)
    requires
        len >= LARGE_SPARSE_IMAGE_BYTES,
    ensures
        copy_response(len, seen) != CopyStep::CopyAll,
        copy_response(len, seen) == CopyStep::Finish ==> match seen {
            CopySeen::Cloned { allocated } => allocated <= len / 2,
            CopySeen::Copied { allocated } => allocated <= len / 2,
            _ => false,
        },
{
}

/// How many bytes are copied at once.
pub fn copy_chunk(remaining: u64, buffer: usize) -> (n: usize)
    ensures
        n == (if remaining < buffer {
            remaining as int
        } else {
            buffer as int
        }),
{
    if remaining < buffer as u64 {
        remaining as usize
    } else {
        buffer
    }
}

// ---------------------------------------------------------------------------
// Laws of sparse copies
// ---------------------------------------------------------------------------

/// A copy is sparse enough where it is below eight GiB or fills at most half of its
/// length, and counts as large and sparse where it is not below and fills no more.
pub proof fn lemma_sparse_enough(len: u64, allocated: u64)
    ensures
        is_sparse_safe(len, allocated) <==> len < 8 * 1024 * 1024 * 1024 || 2 * allocated <= len,
        is_large_sparse(len, allocated) <==> len >= 8 * 1024 * 1024 * 1024 && 2 * allocated <= len,
{
    assert(0x2_0000_0000u64 == LARGE_SPARSE_IMAGE_BYTES);
}

/// A report is not believed where a large sparse file is said to be one extent of data
/// from its start to its end.
pub proof fn lemma_suspicious(len: u64, allocated: u64, extents: Seq<Span>)
    ensures
        is_suspicious(len, allocated, extents) <==> len >= 8 * 1024 * 1024 * 1024 && 2 * allocated
            <= len && extents == seq![Span { offset: 0, len }],
{
    if is_suspicious(len, allocated, extents) {
        assert(extents[0] == (Span { offset: 0, len }));
        assert(extents =~= seq![Span { offset: 0, len }]);
    }
}

/// How a file is copied: it is cloned where it may be, copied extent by extent where it
/// cannot be cloned and is large, and never kept where the copy filled its holes.
pub proof fn lemma_how_a_file_is_copied(len: u64, allocated: u64, error: CloneError)
    ensures
        ({
            let sparse = len < 8 * 1024 * 1024 * 1024 || 2 * allocated <= len;
            &&& copy_response(len, CopySeen::Begin { allocated }) == (if sparse {
                CopyStep::Clone
            } else {
                CopyStep::Refuse
            })
            &&& copy_response(len, CopySeen::Cloned { allocated }) == (if sparse {
                CopyStep::Finish
            } else {
                CopyStep::RemoveDense
            })
            &&& copy_response(len, CopySeen::Copied { allocated }) == (if sparse {
                CopyStep::Finish
            } else {
                CopyStep::RemoveDense
            })
            &&& copy_response(len, CopySeen::NotCloned(error)) == (match error {
                CloneError::Other => CopyStep::Fail,
                _ => if len < 8 * 1024 * 1024 * 1024 {
                    CopyStep::CopyAll
                } else {
                    CopyStep::CopyExtents
                },
            })
        }),
{
    lemma_sparse_enough(len, allocated);
}

/// The data that a look found is kept as far as it lies in the file, behind what was found
/// before; the next look begins where it ends.
pub proof fn lemma_found_data_is_kept(len: u64, extents: Seq<Span>, data: u64, hole: u64)
    ensures
        walk_end(len, hole) <= len,
        walk_end(len, hole) <= hole,
        walk_end(len, hole) == len || walk_end(len, hole) == hole,
        data < len && data < hole ==> walked(len, extents, data, hole) == extents.push(
            Span {
                offset: data,
                len: (if hole < len {
                    hole - data
                } else {
                    len - data
                }) as u64,
            },
        ),
        data >= len || data >= hole ==> walked(len, extents, data, hole) == extents,
{
}

} // verus!
