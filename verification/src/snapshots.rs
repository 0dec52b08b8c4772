//! Memory snapshots: the header of a VM's state, the generation of a snapshot, and
//! whether a snapshot fits the VM that is to be restored from it.
use vstd::prelude::*;

use crate::bytes;
use crate::deterministic;
use crate::digest;
use crate::logs;
use crate::paths;
use crate::publish;
use crate::stamps::FileText;
use crate::text;

verus! {

/// The version of the state's file that can be restored.
pub const SNAPSHOT_VMSTATE_VERSION: u32 = 4;

/// How many bytes of the state's file are read.
pub const VMSTATE_HEADER_LEN: usize = 40;

/// The file that records a snapshot's generation.
pub const SNAPSHOT_LIFECYCLE_META: &'static str = "snapshot.meta";

/// The file that records how a VM was launched.
pub const LAUNCH_METADATA: &'static str = "launch.json";

/// The VM whose state was saved.
#[derive(Clone, Copy, PartialEq, Eq, Structural, Debug)]
pub struct SnapshotVmConfig {
    pub version: u32,
    pub memory_bytes: u64,
    pub vcpu_count: u32,
}

impl SnapshotVmConfig {
    /// The memory in mebibytes.
    pub fn memory_mib(&self) -> (n: u64)
        ensures
            n == self.memory_bytes / 1048576,
    {
        self.memory_bytes / 1024 / 1024
    }

    /// Whether a VM of this size can be restored from the state.
    pub fn matches(&self, cpus: u8, memory_mib: u32) -> (r: bool)
        ensures
            r == (self.vcpu_count == cpus && self.memory_bytes / 1048576 == memory_mib),
    {
        self.vcpu_count == cpus as u32 && self.memory_mib() == memory_mib as u64
    }
}

/// The bytes that begin a state's file.
pub open spec fn vmstate_magic() -> Seq<u8> {
    seq![76u8, 75u8, 82u8, 78u8, 83u8, 83u8, 48u8, 49u8]
}

/// What came of reading the header of a state's file.
#[derive(Debug, PartialEq, Eq)]
pub enum HeaderRead {
    /// There is no such file.
    Missing,
    /// It could not be read, or is too short.
    Failed(String),
    Read(Vec<u8>),
}

/// Why a state's file cannot be restored.
#[derive(Debug, PartialEq, Eq)]
pub enum HeaderError {
    Unreadable { path: String, error: String },
    BadMagic { path: String },
    UnsupportedVersion { version: u32, path: String },
}

impl HeaderError {
    /// The message shown to the user.
    pub open spec fn text(self) -> Seq<char> {
        match self {
            HeaderError::Unreadable { path, error } => "read "@ + path@ + ": "@ + error@,
            HeaderError::BadMagic { path } => "bad snapshot magic in "@ + path@,
            HeaderError::UnsupportedVersion { version, path } => "unsupported snapshot version "@
                + text::dec(version as nat) + " in "@ + path@,
        }
    }

    /// The message shown to the user.
    pub fn message(&self) -> (m: String)
        ensures
            m@ == self.text(),
    {
        match self {
            HeaderError::Unreadable { path, error } => {
                let mut m: String = "read ".to_owned();
                m.append(path.as_str());
                m.append(": ");
                m.append(error.as_str());
                m
            },
            HeaderError::BadMagic { path } => {
                let mut m: String = "bad snapshot magic in ".to_owned();
                m.append(path.as_str());
                m
            },
            HeaderError::UnsupportedVersion { version, path } => {
                let mut m: String = "unsupported snapshot version ".to_owned();
                text::push_dec(&mut m, *version as u128);
                m.append(" in ");
                m.append(path.as_str());
                m
            },
        }
    }
}

/// The configuration that a header records.
pub open spec fn config_in(header: Seq<u8>) -> SnapshotVmConfig {
    SnapshotVmConfig {
        version: bytes::le_value(header.subrange(8, 12)) as u32,
        memory_bytes: bytes::le_value(header.subrange(16, 24)) as u64,
        vcpu_count: bytes::le_value(header.subrange(32, 36)) as u32,
    }
}

fn is_magic(header: &Vec<u8>) -> (r: bool)
    requires
        header@.len() >= 8,
    ensures
        r == (header@.take(8) == vmstate_magic()),
{
    let r: bool = header[0] == 76 && header[1] == 75 && header[2] == 82 && header[3] == 78
        && header[4] == 83 && header[5] == 83 && header[6] == 48 && header[7] == 49;
    proof {
        let h = header@.take(8);
        if r {
            assert(h =~= vmstate_magic());
        } else if h == vmstate_magic() {
            assert(h[0] == 76 && h[1] == 75 && h[2] == 82 && h[3] == 78 && h[4] == 83 && h[5] == 83
                && h[6] == 48 && h[7] == 49);
        }
    }
    r
}

fn read_number(header: &Vec<u8>, from: usize, to: usize) -> (n: u64)
    requires
        from <= to <= header@.len(),
        to - from <= 8,
    ensures
        n == bytes::le_value(header@.subrange(from as int, to as int)),
{
    let field: Vec<u8> = bytes::part(header.as_slice(), from, to);
    bytes::read_le(field.as_slice())
}

/// Whether the header of a state's file can be read, if there is one.
pub open spec fn header_is_good(header: HeaderRead) -> bool {
    match header {
        HeaderRead::Missing => true,
        HeaderRead::Failed(_) => false,
        HeaderRead::Read(b) => b@.take(8) == vmstate_magic() && bytes::le_value(b@.subrange(8, 12))
            == SNAPSHOT_VMSTATE_VERSION,
    }
}

/// Whether an error says what is wrong with the header of a snapshot's state.
pub open spec fn is_header_error(snapshot: Seq<char>, header: HeaderRead, e: HeaderError) -> bool {
    let file = paths::joined(snapshot, "vmstate.bin"@);
    match header {
        HeaderRead::Missing => false,
        HeaderRead::Failed(why) => e matches HeaderError::Unreadable { path, error } && path@
            == file && error@ == why@,
        HeaderRead::Read(b) => if b@.take(8) != vmstate_magic() {
            e matches HeaderError::BadMagic { path } && path@ == file
        } else {
            e matches HeaderError::UnsupportedVersion { version, path } && version
                == bytes::le_value(b@.subrange(8, 12)) && version != SNAPSHOT_VMSTATE_VERSION
                && path@ == file
        },
    }
}

/// The VM whose state a snapshot holds; none for a snapshot without a state.
pub fn snapshot_vm_config(snapshot: &str, header: &HeaderRead) -> (r: Result<
    Option<SnapshotVmConfig>,
    HeaderError,
>)
    requires
        *header matches HeaderRead::Read(b) ==> b@.len() == VMSTATE_HEADER_LEN,
    ensures
        r is Ok <==> header_is_good(*header),
        r matches Ok(found) ==> found == (match *header {
            HeaderRead::Read(b) => Some(config_in(b@)),
            _ => None,
        }),
        r matches Err(e) ==> is_header_error(snapshot@, *header, e),
{
    let path: String = paths::join(snapshot, "vmstate.bin");
    match header {
        HeaderRead::Missing => Ok(None),
        HeaderRead::Failed(why) => Err(HeaderError::Unreadable { path, error: why.clone() }),
        HeaderRead::Read(b) => {
            if !is_magic(b) {
                return Err(HeaderError::BadMagic { path });
            }
            let version: u64 = read_number(b, 8, 12);
            let memory_bytes: u64 = read_number(b, 16, 24);
            let vcpu_count: u64 = read_number(b, 32, 36);
            proof {
                bytes::lemma_le_fits(b@.subrange(8, 12));
                bytes::lemma_le_fits(b@.subrange(32, 36));
                bytes::lemma_byte_ranges();
            }
            if version != SNAPSHOT_VMSTATE_VERSION as u64 {
                return Err(HeaderError::UnsupportedVersion { version: version as u32, path });
            }
            Ok(
                Some(
                    SnapshotVmConfig {
                        version: version as u32,
                        memory_bytes,
                        vcpu_count: vcpu_count as u32,
                    },
                ),
            )
        },
    }
}

// ---------------------------------------------------------------------------
// Generations
// ---------------------------------------------------------------------------

/// What the operating system says about a file.
#[derive(Debug, PartialEq, Eq)]
pub struct FileStat {
    pub size: u64,
    /// Nanoseconds since the epoch; none for a time before it.
    pub modified_unix_nanos: Option<u128>,
    pub dev: u64,
    pub ino: u64,
    pub blocks: u64,
}

/// What came of asking for it.
#[derive(Debug, PartialEq, Eq)]
pub enum StatRead {
    Found(FileStat),
    Failed(String),
}

/// When a file was modified, as text.
pub open spec fn modified_text(modified: Option<u128>) -> Seq<char> {
    match modified {
        Some(n) => text::dec(n as nat),
        None => "unknown"@,
    }
}

fn modified_of(modified: Option<u128>) -> (s: String)
    ensures
        s@ == modified_text(modified),
{
    match modified {
        Some(n) => text::decimal(n),
        None => "unknown".to_owned(),
    }
}

/// The generation that the first line of the form `generation_id=…` with a value names.
pub open spec fn generation_of_lines(lines: Seq<Seq<char>>) -> Option<Seq<char>>
    decreases lines.len(),
{
    if lines.len() == 0 {
        None
    } else {
        match text::split_once_on(lines[0], '=') {
            Some((key, value)) => if key == "generation_id"@ && value.len() > 0 {
                Some(logs::log_word(value))
            } else {
                generation_of_lines(lines.skip(1))
            },
            None => generation_of_lines(lines.skip(1)),
        }
    }
}

/// The generation that a snapshot's file records.
pub fn read_snapshot_generation_id(meta: &str) -> (r: Option<String>)
    ensures
        match r {
            Some(s) => generation_of_lines(text::lines_of(meta@)) == Some(s@),
            None => generation_of_lines(text::lines_of(meta@)) is None,
        },
{
    let lines: Vec<String> = text::lines(meta);
    let ghost all = text::lines_of(meta@);
    let mut i: usize = 0;
    assert(all.skip(0) =~= all);
    while i < lines.len()
        invariant
            i <= lines@.len(),
            all == text::lines_of(meta@),
            text::views(lines@) == all,
            generation_of_lines(all) == generation_of_lines(all.skip(i as int)),
        decreases lines@.len() - i,
    {
        proof {
            let rest = all.skip(i as int);
            assert(rest[0] == lines@[i as int]@);
            assert(rest.skip(1) =~= all.skip(i + 1));
        }
        if let Some((key, value)) = text::split_once(lines[i].as_str(), '=') {
            if text::same(key, "generation_id") && !value.is_empty() {
                return Some(logs::log_value(value));
            }
        }
        i = i + 1;
    }
    assert(all.skip(i as int) =~= Seq::<Seq<char>>::empty());
    None
}

/// The lines about a file in the record of a snapshot.
pub open spec fn file_manifest(name: Seq<char>, stat: StatRead) -> Seq<char> {
    match stat {
        StatRead::Found(f) => name + ".size="@ + text::dec(f.size as nat) + "\n"@ + name
            + ".modified_unix_nanos="@ + modified_text(f.modified_unix_nanos) + "\n"@ + name
            + ".dev="@ + text::dec(f.dev as nat) + "\n"@ + name + ".ino="@ + text::dec(f.ino as nat)
            + "\n"@ + name + ".blocks="@ + text::dec(f.blocks as nat) + "\n"@,
        StatRead::Failed(e) => name + ".stat_error="@ + e@ + "\n"@,
    }
}

fn append_snapshot_file_manifest(content: &mut String, name: &str, stat: &StatRead)
    ensures
        final(content)@ == old(content)@ + file_manifest(name@, *stat),
{
    let ghost before = content@;
    match stat {
        StatRead::Found(f) => {
            content.append(name);
            content.append(".size=");
            text::push_dec(content, f.size as u128);
            content.append("\n");
            content.append(name);
            content.append(".modified_unix_nanos=");
            content.append(modified_of(f.modified_unix_nanos).as_str());
            content.append("\n");
            content.append(name);
            content.append(".dev=");
            text::push_dec(content, f.dev as u128);
            content.append("\n");
            content.append(name);
            content.append(".ino=");
            text::push_dec(content, f.ino as u128);
            content.append("\n");
            content.append(name);
            content.append(".blocks=");
            text::push_dec(content, f.blocks as u128);
            content.append("\n");
        },
        StatRead::Failed(e) => {
            content.append(name);
            content.append(".stat_error=");
            content.append(e.as_str());
            content.append("\n");
        },
    }
    assert(content@ =~= before + file_manifest(name@, *stat));
}

/// What is known of the three files of a snapshot's state.
#[derive(Debug, PartialEq, Eq)]
pub struct StateStats {
    pub vmstate: StatRead,
    pub pages: StatRead,
    pub rootfs: StatRead,
}

/// What the record of a snapshot says beside its generation.
pub open spec fn lifecycle_details(
    source_run_id: Seq<char>,
    created_unix_nanos: u128,
    source_rootfs: Seq<char>,
    stats: StateStats,
) -> Seq<char> {
    "source_run_id="@ + logs::log_word(source_run_id) + "\n"@ + "created_unix_nanos="@ + text::dec(
        created_unix_nanos as nat,
    ) + "\n"@ + "source_rootfs="@ + source_rootfs + "\n"@ + file_manifest(
        "vmstate.bin"@,
        stats.vmstate,
    ) + file_manifest("pages.img"@, stats.pages) + file_manifest("rootfs.ext4"@, stats.rootfs)
}

/// The record of a snapshot: its generation, then the rest.
pub open spec fn lifecycle_manifest(generation_id: Seq<char>, details: Seq<char>) -> Seq<char> {
    "version=1\n"@ + "generation_id="@ + logs::log_word(generation_id) + "\n"@ + details
}

fn lifecycle_details_of(
    source_run_id: &str,
    created_unix_nanos: u128,
    source_rootfs: &str,
    stats: &StateStats,
) -> (s: String)
    ensures
        s@ == lifecycle_details(source_run_id@, created_unix_nanos, source_rootfs@, *stats),
{
    let mut s: String = "source_run_id=".to_owned();
    s.append(logs::log_value(source_run_id).as_str());
    s.append("\n");
    s.append("created_unix_nanos=");
    text::push_dec(&mut s, created_unix_nanos);
    s.append("\n");
    s.append("source_rootfs=");
    s.append(source_rootfs);
    s.append("\n");
    append_snapshot_file_manifest(&mut s, "vmstate.bin", &stats.vmstate);
    append_snapshot_file_manifest(&mut s, "pages.img", &stats.pages);
    append_snapshot_file_manifest(&mut s, "rootfs.ext4", &stats.rootfs);
    s
}

/// Writes the record of a snapshot.
pub fn snapshot_lifecycle_manifest(
    generation_id: &str,
    source_run_id: &str,
    created_unix_nanos: u128,
    source_rootfs: &str,
    stats: &StateStats,
) -> (s: String)
    ensures
        s@ == lifecycle_manifest(
            generation_id@,
            lifecycle_details(source_run_id@, created_unix_nanos, source_rootfs@, *stats),
        ),
{
    let mut s: String = "version=1\n".to_owned();
    s.append("generation_id=");
    s.append(logs::log_value(generation_id).as_str());
    s.append("\n");
    s.append(
        lifecycle_details_of(source_run_id, created_unix_nanos, source_rootfs, stats).as_str(),
    );
    s
}

/// The generation that was recorded is the one that is read back, as one word.
pub proof fn lemma_generation_round_trip(generation_id: Seq<char>, details: Seq<char>)
    requires
        generation_id.len() > 0,
    ensures
        generation_of_lines(text::lines_of(lifecycle_manifest(generation_id, details))) == Some(
            logs::log_word(generation_id),
        ),
{
    reveal_strlit("version=1\n");
    reveal_strlit("generation_id=");
    reveal_strlit("generation_id");
    reveal_strlit("\n");
    let word = logs::log_word(generation_id);
    logs::lemma_log_word_is_one_word(generation_id);
    let key = "generation_id"@;
    let first = seq!['v', 'e', 'r', 's', 'i', 'o', 'n'] + seq!['='] + seq!['1'];
    let second = key + seq!['='] + word;
    assert("\n"@ =~= seq!['\n']);
    assert("version=1\n"@ =~= first + seq!['\n']);
    assert("generation_id="@ =~= key + seq!['=']);
    let all = lifecycle_manifest(generation_id, details);
    assert(all =~= first + seq!['\n'] + (second + seq!['\n'] + details));
    assert(!first.contains('\n'));
    assert(!key.contains('\n'));
    assert(!word.contains('\n'));
    assert(!second.contains('\n')) by {
        assert forall|i: int| 0 <= i < second.len() implies second[i] != '\n' by {
            if i < 13 {
                assert(second[i] == key[i]);
                assert(key.contains(key[i]));
            } else if i > 13 {
                assert(second[i] == word[i - 14]);
            }
        }
    }
    assert(second.last() == word[word.len() - 1]);
    text::lemma_lines_cons(second, details);
    text::lemma_lines_cons(first, second + seq!['\n'] + details);
    let lines = text::lines_of(all);
    let rest = seq![second] + text::lines_of(details);
    assert(lines[0] == first);
    assert(lines.skip(1) =~= rest);
    assert(!seq!['v', 'e', 'r', 's', 'i', 'o', 'n'].contains('='));
    text::lemma_split_once_pair(seq!['v', 'e', 'r', 's', 'i', 'o', 'n'], '=', seq!['1']);
    assert(!key.contains('='));
    text::lemma_split_once_pair(key, '=', word);
    assert(rest[0] == second);
    assert(seq!['v', 'e', 'r', 's', 'i', 'o', 'n'] != key) by {
        assert(key.len() == 13);
    }
    assert(generation_of_lines(rest) == Some(logs::log_word(word)));
}

/// What tells the file at a path, for a snapshot without a record.
pub open spec fn fingerprint(path: Seq<char>, stat: StatRead) -> Seq<char> {
    match stat {
        StatRead::Found(f) => "size="@ + text::dec(f.size as nat) + " modified_unix_nanos="@
            + modified_text(f.modified_unix_nanos) + " dev="@ + text::dec(f.dev as nat) + " ino="@
            + text::dec(f.ino as nat) + " blocks="@ + text::dec(f.blocks as nat),
        StatRead::Failed(_) => "error=stat "@ + path,
    }
}

/// Writes what tells the file at a path, for a snapshot without a record.
pub fn snapshot_file_fingerprint(path: &str, stat: &StatRead) -> (s: String)
    ensures
        s@ == fingerprint(path@, *stat),
{
    match stat {
        StatRead::Found(f) => {
            let mut s: String = "size=".to_owned();
            text::push_dec(&mut s, f.size as u128);
            s.append(" modified_unix_nanos=");
            s.append(modified_of(f.modified_unix_nanos).as_str());
            s.append(" dev=");
            text::push_dec(&mut s, f.dev as u128);
            s.append(" ino=");
            text::push_dec(&mut s, f.ino as u128);
            s.append(" blocks=");
            text::push_dec(&mut s, f.blocks as u128);
            s
        },
        StatRead::Failed(_) => {
            let mut s: String = "error=stat ".to_owned();
            s.append(path);
            s
        },
    }
}

/// What is hashed for a file of a snapshot without a record.
pub open spec fn legacy_part(snapshot: Seq<char>, name: Seq<char>, stat: StatRead) -> Seq<u8> {
    seq![0u8] + deterministic::utf8(name) + seq![0u8] + deterministic::utf8(
        fingerprint(paths::joined(snapshot, name), stat),
    )
}

/// What is hashed for the generation of a snapshot without a record.
pub open spec fn legacy_input(snapshot: Seq<char>, stats: StateStats) -> Seq<u8> {
    deterministic::utf8(snapshot) + legacy_part(snapshot, "vmstate.bin"@, stats.vmstate)
        + legacy_part(snapshot, "pages.img"@, stats.pages) + legacy_part(
        snapshot,
        "rootfs.ext4"@,
        stats.rootfs,
    )
}

fn push_legacy_part(out: &mut Vec<u8>, snapshot: &str, name: &str, stat: &StatRead)
    ensures
        final(out)@ == old(out)@ + legacy_part(snapshot@, name@, *stat),
{
    let ghost before = out@;
    let path: String = paths::join(snapshot, name);
    out.push(0);
    bytes::push_all(out, name.as_bytes());
    out.push(0);
    bytes::push_all(out, snapshot_file_fingerprint(path.as_str(), stat).as_str().as_bytes());
    assert(out@ =~= before + legacy_part(snapshot@, name@, *stat));
}

/// What is hashed for the generation of a snapshot without a record.
pub fn legacy_generation_input(snapshot: &str, stats: &StateStats) -> (r: Vec<u8>)
    ensures
        r@ == legacy_input(snapshot@, *stats),
{
    let mut r: Vec<u8> = Vec::new();
    bytes::push_all(&mut r, snapshot.as_bytes());
    assert(r@ =~= deterministic::utf8(snapshot@));
    push_legacy_part(&mut r, snapshot, "vmstate.bin", &stats.vmstate);
    push_legacy_part(&mut r, snapshot, "pages.img", &stats.pages);
    push_legacy_part(&mut r, snapshot, "rootfs.ext4", &stats.rootfs);
    r
}

/// The generation that a digest names.
pub open spec fn legacy_name(d: Seq<u8>) -> Seq<char> {
    "legacy-"@ + text::hex(bytes::le_value(d.take(8)), 16)
}

/// The generation that a digest names.
pub fn legacy_generation_from_digest(d: &Vec<u8>) -> (s: String)
    requires
        d@.len() >= 8,
    ensures
        s@ == legacy_name(d@),
{
    let head: Vec<u8> = bytes::part(d.as_slice(), 0, 8);
    assert(d@.subrange(0, 8) =~= d@.take(8));
    let prefix: u64 = bytes::read_le(head.as_slice());
    let mut s: String = "legacy-".to_owned();
    s.append(text::hexadecimal(prefix, 16).as_str());
    s
}

/// The generation of a snapshot without a record: told by where it is and what its files
/// are.
pub fn legacy_snapshot_generation_id(snapshot: &str, stats: &StateStats) -> (s: String)
    ensures
        s@ == legacy_name(digest::sha256_of(legacy_input(snapshot@, *stats))),
{
    let input: Vec<u8> = legacy_generation_input(snapshot, stats);
    legacy_generation_from_digest(&digest::digest(input.as_slice()))
}

/// The generation of a snapshot: the recorded one, or else one that is made of its files.
/// `meta` is the record, where it can be read.
pub fn snapshot_generation_id(snapshot: &str, meta: Option<&str>, stats: &StateStats) -> (s: String)
    ensures
        ({
            let recorded = match meta {
                Some(raw) => generation_of_lines(text::lines_of(raw@)),
                None => None,
            };
            match recorded {
                Some(id) => s@ == id,
                None => s@ == legacy_name(digest::sha256_of(legacy_input(snapshot@, *stats))),
            }
        }),
{
    let recorded: Option<String> = match meta {
        Some(raw) => read_snapshot_generation_id(raw),
        None => None,
    };
    match recorded {
        Some(id) => id,
        None => legacy_snapshot_generation_id(snapshot, stats),
    }
}

// ---------------------------------------------------------------------------
// The guest agent of a snapshot
// ---------------------------------------------------------------------------

/// The first line that begins with `prefix`.
pub open spec fn line_with_prefix(lines: Seq<Seq<char>>, prefix: Seq<char>) -> Option<Seq<char>>
    decreases lines.len(),
{
    if lines.len() == 0 {
        None
    } else if text::begins(lines[0], prefix) {
        Some(lines[0])
    } else {
        line_with_prefix(lines.skip(1), prefix)
    }
}

/// What a stamp tells the guest agent by: the line that names its source, or else the one
/// that names its binary.
pub open spec fn initramfs_key(stamp: Seq<char>) -> Option<Seq<char>> {
    let lines = text::lines_of(stamp);
    match line_with_prefix(lines, "source="@) {
        Some(line) => Some(line),
        None => line_with_prefix(lines, "sha256="@),
    }
}

fn find_line(lines: &Vec<String>, prefix: &str) -> (r: Option<String>)
    ensures
        match r {
            Some(s) => line_with_prefix(text::views(lines@), prefix@) == Some(s@),
            None => line_with_prefix(text::views(lines@), prefix@) is None,
        },
{
    let ghost all = text::views(lines@);
    let mut i: usize = 0;
    assert(all.skip(0) =~= all);
    while i < lines.len()
        invariant
            i <= lines@.len(),
            all == text::views(lines@),
            line_with_prefix(all, prefix@) == line_with_prefix(all.skip(i as int), prefix@),
        decreases lines@.len() - i,
    {
        proof {
            let rest = all.skip(i as int);
            assert(rest[0] == lines@[i as int]@);
            assert(rest.skip(1) =~= all.skip(i + 1));
        }
        if text::starts_with(lines[i].as_str(), prefix) {
            return Some(lines[i].clone());
        }
        i = i + 1;
    }
    assert(all.skip(i as int) =~= Seq::<Seq<char>>::empty());
    None
}

/// What a stamp tells the guest agent by.
pub fn initramfs_stamp_key(stamp: &str) -> (r: Option<String>)
    ensures
        match r {
            Some(s) => initramfs_key(stamp@) == Some(s@),
            None => initramfs_key(stamp@) is None,
        },
{
    let lines: Vec<String> = text::lines(stamp);
    match find_line(&lines, "source=") {
        Some(line) => Some(line),
        None => find_line(&lines, "sha256="),
    }
}

/// The key of a stamp that was read.
pub open spec fn key_of_file(file: FileText) -> Option<Seq<char>> {
    match file {
        FileText::Found(stamp) => initramfs_key(stamp@),
        _ => None,
    }
}

fn key_in_file(file: &FileText) -> (r: Option<String>)
    ensures
        match r {
            Some(s) => key_of_file(*file) == Some(s@),
            None => key_of_file(*file) is None,
        },
{
    match file {
        FileText::Found(stamp) => initramfs_stamp_key(stamp.as_str()),
        _ => None,
    }
}

/// Whether a snapshot was taken with the guest agent that would be restored: both stamps
/// must be there and tell the same agent.
pub fn snapshot_initramfs_is_compatible(snapshot: &FileText, current: &FileText) -> (r: bool)
    ensures
        r == (key_of_file(*snapshot) is Some && key_of_file(*snapshot) == key_of_file(*current)),
{
    match (key_in_file(snapshot), key_in_file(current)) {
        (Some(a), Some(b)) => text::same(a.as_str(), b.as_str()),
        _ => false,
    }
}

/// The advice for a snapshot that cannot be restored.
pub open spec fn guidance_text(instance: Seq<char>, is_latest: bool) -> Seq<char> {
    if is_latest {
        "recovery: lnx --instance "@ + instance + " snapshots clear to explicitly cold-boot"@
    } else {
        "recovery: provide a compatible snapshot; to explicitly cold-boot, run lnx --instance "@
            + instance + " snapshots clear and retry without --snapshot"@
    }
}

/// Whether two paths name the same snapshot: the same path, or one that is resolved to
/// the same place. A place is not known where it cannot be resolved.
pub open spec fn same_snapshot(
    left: Seq<char>,
    right: Seq<char>,
    left_place: Option<Seq<char>>,
    right_place: Option<Seq<char>>,
) -> bool {
    paths::components(left) == paths::components(right) || (left_place is Some && right_place is Some
        && paths::components(left_place->Some_0) == paths::components(right_place->Some_0))
}

/// Whether two paths name the same snapshot.
pub fn paths_refer_to_same_snapshot(
    left: &str,
    right: &str,
    left_place: Option<&str>,
    right_place: Option<&str>,
) -> (r: bool)
    ensures
        r == same_snapshot(left@, right@, text::opt_view(left_place), text::opt_view(right_place)),
{
    if paths::same_path(left, right) {
        return true;
    }
    match (left_place, right_place) {
        (Some(a), Some(b)) => paths::same_path(a, b),
        _ => false,
    }
}

/// Advises what to do about a snapshot that cannot be restored: the published one can be
/// cleared, another one has to be replaced or left out.
pub fn snapshot_restore_recovery_guidance(
    layout: &paths::Layout,
    snapshot_path: &str,
    snapshot_place: Option<&str>,
    latest_place: Option<&str>,
) -> (s: String)
    ensures
        s@ == guidance_text(
            layout.instance@,
            same_snapshot(
                snapshot_path@,
                paths::joined(layout.snapshot_dir@, "latest"@),
                text::opt_view(snapshot_place),
                text::opt_view(latest_place),
            ),
        ),
{
    let latest: String = paths::join(layout.snapshot_dir.as_str(), "latest");
    if paths_refer_to_same_snapshot(
        snapshot_path,
        latest.as_str(),
        snapshot_place,
        latest_place,
    ) {
        let mut s: String = "recovery: lnx --instance ".to_owned();
        s.append(layout.instance.as_str());
        s.append(" snapshots clear to explicitly cold-boot");
        s
    } else {
        let mut s: String =
            "recovery: provide a compatible snapshot; to explicitly cold-boot, run lnx --instance ".to_owned();
        s.append(layout.instance.as_str());
        s.append(" snapshots clear and retry without --snapshot");
        s
    }
}

/// The guest agent of a snapshot is another one.
#[derive(Debug, PartialEq, Eq)]
pub struct InitramfsMismatch {
    pub snapshot_stamp: String,
    pub current_stamp: String,
    pub guidance: String,
}

impl InitramfsMismatch {
    /// The message shown to the user.
    pub fn message(&self) -> (m: String)
        ensures
            m@
                == "snapshot initramfs is incompatible with the current guest agent: snapshot="@
                + self.snapshot_stamp@ + " current="@ + self.current_stamp@ + "\n"@
                + self.guidance@,
    {
        let mut m: String =
            "snapshot initramfs is incompatible with the current guest agent: snapshot=".to_owned();
        m.append(self.snapshot_stamp.as_str());
        m.append(" current=");
        m.append(self.current_stamp.as_str());
        m.append("\n");
        m.append(self.guidance.as_str());
        m
    }
}

/// Checks that a snapshot was taken with the guest agent that would be restored.
/// `snapshot` and `current` are what came of reading the two stamps.
pub fn validate_snapshot_initramfs_compatibility(
    layout: &paths::Layout,
    snapshot_path: &str,
    current_path: &str,
    snapshot: &FileText,
    current: &FileText,
    snapshot_place: Option<&str>,
    latest_place: Option<&str>,
) -> (r: Result<(), InitramfsMismatch>)
    ensures
        r is Ok <==> key_of_file(*snapshot) is Some && key_of_file(*snapshot) == key_of_file(
            *current,
        ),
        r matches Err(e) ==> {
            &&& e.snapshot_stamp@ == paths::joined(snapshot_path@, "initramfs.stamp"@)
            &&& e.current_stamp@ == current_path@
            &&& e.guidance@ == guidance_text(
                layout.instance@,
                same_snapshot(
                    snapshot_path@,
                    paths::joined(layout.snapshot_dir@, "latest"@),
                    text::opt_view(snapshot_place),
                    text::opt_view(latest_place),
                ),
            )
        },
{
    if snapshot_initramfs_is_compatible(snapshot, current) {
        return Ok(());
    }
    Err(
        InitramfsMismatch {
            snapshot_stamp: paths::join(snapshot_path, "initramfs.stamp"),
            current_stamp: current_path.to_owned(),
            guidance: snapshot_restore_recovery_guidance(
                layout,
                snapshot_path,
                snapshot_place,
                latest_place,
            ),
        },
    )
}

// ---------------------------------------------------------------------------
// Disk and memory
// ---------------------------------------------------------------------------

/// How much newer than the memory a disk may be, in nanoseconds.
pub const ROOTFS_SKEW_NANOS: i128 = 1000000000;

/// The later of two times.
pub open spec fn latest_of(a: i128, b: i128) -> i128 {
    if a >= b {
        a
    } else {
        b
    }
}

/// When the memory of a snapshot was captured: the later time of its two files.
pub fn memory_time(vmstate: i128, pages: i128) -> (r: i128)
    ensures
        r == latest_of(vmstate, pages),
{
    if vmstate >= pages {
        vmstate
    } else {
        pages
    }
}

/// When the files of a snapshot were modified, in nanoseconds since the epoch.
#[derive(Clone, Copy, PartialEq, Eq, Structural, Debug)]
pub struct SnapshotTimes {
    pub rootfs: i128,
    pub vmstate: i128,
    pub pages: i128,
}

/// Whether a disk was written to after the memory was captured: more than a second after
/// the later of the memory's two files.
pub open spec fn disk_is_newer(times: SnapshotTimes) -> bool {
    times.rootfs - latest_of(times.vmstate, times.pages) > ROOTFS_SKEW_NANOS
}

/// The message for a disk that is newer than the memory.
pub open spec fn incoherent_text(snapshot: Seq<char>) -> Seq<char> {
    "snapshot rootfs was modified after memory state was captured; refusing to pair "@
        + paths::joined(snapshot, "rootfs.ext4"@) + " with stale "@ + paths::joined(
        snapshot,
        "vmstate.bin"@,
    ) + "/"@ + paths::joined(snapshot, "pages.img"@)
}

/// Says why a snapshot's disk does not belong to its memory, where it does not.
pub fn snapshot_rootfs_pair_incoherent(snapshot: &str, times: SnapshotTimes) -> (r: Option<String>)
    ensures
        r is Some <==> disk_is_newer(times),
        r matches Some(m) ==> m@ == incoherent_text(snapshot@),
{
    let state: i128 = memory_time(times.vmstate, times.pages);
    if state > i128::MAX - ROOTFS_SKEW_NANOS || times.rootfs <= state + ROOTFS_SKEW_NANOS {
        return None;
    }
    let mut m: String =
        "snapshot rootfs was modified after memory state was captured; refusing to pair ".to_owned();
    m.append(paths::join(snapshot, "rootfs.ext4").as_str());
    m.append(" with stale ");
    m.append(paths::join(snapshot, "vmstate.bin").as_str());
    m.append("/");
    m.append(paths::join(snapshot, "pages.img").as_str());
    Some(m)
}

/// A disk whose time is set to that of the memory belongs to it.
pub proof fn lemma_aligned_disk_is_coherent(vmstate: i128, pages: i128)
    ensures
        !disk_is_newer(
            SnapshotTimes { rootfs: latest_of(vmstate, pages), vmstate, pages },
        ),
{
}

/// Why a snapshot is not restored.
#[derive(Debug, PartialEq, Eq)]
pub enum RestoreRefusal {
    /// It has no disk.
    RootfsMissing { path: String },
    /// The file system on the disk is damaged.
    Unhealthy { error: String },
    /// The times of its files cannot be read.
    Times { error: String },
    /// Its disk does not belong to its memory: it is refused for good.
    Incoherent { reason: String },
}

impl RestoreRefusal {
    /// The message shown to the user.
    pub open spec fn text(self) -> Seq<char> {
        match self {
            RestoreRefusal::RootfsMissing { path } => "snapshot cannot be restored because its rootfs is missing: "@
                + path@,
            RestoreRefusal::Unhealthy { error } => error@,
            RestoreRefusal::Times { error } => error@,
            RestoreRefusal::Incoherent { reason } => reason@,
        }
    }

    /// The message shown to the user.
    pub fn message(&self) -> (m: String)
        ensures
            m@ == self.text(),
    {
        match self {
            RestoreRefusal::RootfsMissing { path } => {
                let mut m: String =
                    "snapshot cannot be restored because its rootfs is missing: ".to_owned();
                m.append(path.as_str());
                m
            },
            RestoreRefusal::Unhealthy { error } => error.clone(),
            RestoreRefusal::Times { error } => error.clone(),
            RestoreRefusal::Incoherent { reason } => reason.clone(),
        }
    }
}

/// Checks the disk of a snapshot before it is restored: it is there, its file system is
/// whole, and it belongs to the memory.
pub fn validate_restore_snapshot_rootfs(
    snapshot: &str,
    present: bool,
    health: &Result<(), String>,
    times: &Result<SnapshotTimes, String>,
) -> (r: Result<(), RestoreRefusal>)
    ensures
        if !present {
            r matches Err(RestoreRefusal::RootfsMissing { path }) && path@ == paths::joined(
                snapshot@,
                "rootfs.ext4"@,
            )
        } else {
            match (*health, *times) {
                (Err(why), _) => r matches Err(RestoreRefusal::Unhealthy { error }) && error@
                    == why@,
                (Ok(()), Err(why)) => r matches Err(RestoreRefusal::Times { error }) && error@
                    == why@,
                (Ok(()), Ok(t)) => if disk_is_newer(t) {
                    r matches Err(RestoreRefusal::Incoherent { reason }) && reason@
                        == incoherent_text(snapshot@)
                } else {
                    r is Ok
                },
            }
        },
{
    if !present {
        return Err(RestoreRefusal::RootfsMissing { path: paths::join(snapshot, "rootfs.ext4") });
    }
    if let Err(why) = health {
        return Err(RestoreRefusal::Unhealthy { error: why.clone() });
    }
    match times {
        Err(why) => Err(RestoreRefusal::Times { error: why.clone() }),
        Ok(t) => match snapshot_rootfs_pair_incoherent(snapshot, *t) {
            Some(reason) => Err(RestoreRefusal::Incoherent { reason }),
            None => Ok(()),
        },
    }
}

/// A snapshot that was copied for a restored VM to work on.
#[derive(Debug, PartialEq, Eq)]
pub struct PreparedRestore {
    pub snapshot: String,
    pub rootfs: String,
    pub generation_id: String,
}

/// Where a restored VM works, and under which generation: the one that is asked for, or
/// else the snapshot's own.
pub fn prepared_restore(
    layout: &paths::Layout,
    restore_generation: Option<&str>,
    own_generation: &str,
) -> (r: PreparedRestore)
    ensures
        r.snapshot@ == paths::joined(layout.snapshot_dir@, publish::RESTORE_WORK_SNAPSHOT@),
        r.rootfs@ == paths::joined(r.snapshot@, "rootfs.ext4"@),
        r.generation_id@ == (match restore_generation {
            Some(id) => id@,
            None => own_generation@,
        }),
{
    let snapshot: String = publish::restore_work_snapshot(layout);
    let rootfs: String = paths::join(snapshot.as_str(), "rootfs.ext4");
    let generation_id: String = match restore_generation {
        Some(id) => id.to_owned(),
        None => own_generation.to_owned(),
    };
    PreparedRestore { snapshot, rootfs, generation_id }
}

/// What the run log says about the copy of a snapshot.
pub fn restore_clone_line(source: &str, restore: &PreparedRestore) -> (s: String)
    ensures
        s@ == "snapshot.restore.clone generation_id="@ + restore.generation_id@ + " source="@
            + source@ + " work="@ + restore.snapshot@ + " rootfs_source="@ + paths::joined(
            source@,
            "rootfs.ext4"@,
        ) + " rootfs_work="@ + restore.rootfs@,
{
    let mut s: String = "snapshot.restore.clone generation_id=".to_owned();
    s.append(restore.generation_id.as_str());
    s.append(" source=");
    s.append(source);
    s.append(" work=");
    s.append(restore.snapshot.as_str());
    s.append(" rootfs_source=");
    s.append(paths::join(source, "rootfs.ext4").as_str());
    s.append(" rootfs_work=");
    s.append(restore.rootfs.as_str());
    s
}

// ---------------------------------------------------------------------------
// Incremental snapshots
// ---------------------------------------------------------------------------

/// How a new snapshot starts.
#[derive(Debug, PartialEq, Eq)]
pub enum SeedPlan {
    /// It has memory already: leave it.
    AlreadySeeded,
    /// There is nothing to start from: it is taken in full.
    NoBase,
    /// Start from the files of this snapshot.
    From(String),
}

/// Decides what a new snapshot starts from: the snapshot that the VM was restored from,
/// or else the published one, where it has memory.
pub fn seed_incremental_snapshot(
    has_pages: bool,
    restore_snapshot: Option<&str>,
    restore_has_pages: bool,
    latest_snapshot: &str,
    latest_has_pages: bool,
) -> (r: SeedPlan)
    ensures
        has_pages ==> r is AlreadySeeded,
        !has_pages ==> match (restore_snapshot, restore_has_pages) {
            (Some(base), true) => r matches SeedPlan::From(b) && b@ == base@,
            _ => if latest_has_pages {
                r matches SeedPlan::From(b) && b@ == latest_snapshot@
            } else {
                r is NoBase
            },
        },
        r is AlreadySeeded <==> has_pages,
        r is NoBase <==> !has_pages && !latest_has_pages && !(restore_snapshot is Some
            && restore_has_pages),
{
    if has_pages {
        return SeedPlan::AlreadySeeded;
    }
    if let Some(base) = restore_snapshot {
        if restore_has_pages {
            return SeedPlan::From(base.to_owned());
        }
    }
    if latest_has_pages {
        SeedPlan::From(latest_snapshot.to_owned())
    } else {
        SeedPlan::NoBase
    }
}

/// The files that a new snapshot takes over from the one that it starts from.
pub fn seed_files() -> (v: Vec<&'static str>)
    ensures
        v@.len() == 7,
        v@[0]@ == "pages.img"@,
        v@[1]@ == "vmstate.bin"@,
        v@[2]@ == "rootfs.ext4"@,
        v@[3]@ == "initramfs.stamp"@,
        v@[4]@ == LAUNCH_METADATA@,
        v@[5]@ == "deterministic.stamp"@,
        v@[6]@ == deterministic::DETERMINISTIC_CLOCK_STATE@,
{
    let mut v: Vec<&'static str> = Vec::new();
    v.push("pages.img");
    v.push("vmstate.bin");
    v.push("rootfs.ext4");
    v.push("initramfs.stamp");
    v.push(LAUNCH_METADATA);
    v.push("deterministic.stamp");
    v.push(deterministic::DETERMINISTIC_CLOCK_STATE);
    v
}

/// The files that a restored VM's work takes over from its snapshot.
pub fn snapshot_restore_files() -> (v: Vec<&'static str>)
    ensures
        v@.len() == 8,
        v@[0]@ == "vmstate.bin"@,
        v@[1]@ == "pages.img"@,
        v@[2]@ == "rootfs.ext4"@,
        v@[3]@ == "initramfs.stamp"@,
        v@[4]@ == LAUNCH_METADATA@,
        v@[5]@ == "deterministic.stamp"@,
        v@[6]@ == deterministic::DETERMINISTIC_CLOCK_STATE@,
        v@[7]@ == SNAPSHOT_LIFECYCLE_META@,
{
    let mut v: Vec<&'static str> = Vec::new();
    v.push("vmstate.bin");
    v.push("pages.img");
    v.push("rootfs.ext4");
    v.push("initramfs.stamp");
    v.push(LAUNCH_METADATA);
    v.push("deterministic.stamp");
    v.push(deterministic::DETERMINISTIC_CLOCK_STATE);
    v.push(SNAPSHOT_LIFECYCLE_META);
    v
}

/// Decides what a checkpoint starts from.
pub fn seed_checkpoint_from_base(
    has_pages: bool,
    restore_snapshot: Option<&str>,
    restore_has_pages: bool,
    latest_snapshot: &str,
    latest_has_pages: bool,
) -> (r: SeedPlan)
    ensures
        has_pages ==> r is AlreadySeeded,
        !has_pages ==> match (restore_snapshot, restore_has_pages) {
            (Some(base), true) => r matches SeedPlan::From(b) && b@ == base@,
            _ => if latest_has_pages {
                r matches SeedPlan::From(b) && b@ == latest_snapshot@
            } else {
                r is NoBase
            },
        },
        r is AlreadySeeded <==> has_pages,
        r is NoBase <==> !has_pages && !latest_has_pages && !(restore_snapshot is Some
            && restore_has_pages),
{
    seed_incremental_snapshot(
        has_pages,
        restore_snapshot,
        restore_has_pages,
        latest_snapshot,
        latest_has_pages,
    )
}

// ---------------------------------------------------------------------------
// The disk of a cold boot
// ---------------------------------------------------------------------------

/// How the disk of a snapshot becomes the disk of the next cold boot.
#[derive(Debug, PartialEq, Eq)]
pub enum PromotePlan {
    /// It is that disk already.
    Nothing,
    /// Copy it to `temp`, then move that into place.
    Copy { source: String, temp: String },
}

/// Why the disk of a snapshot cannot become the disk of the next cold boot.
#[derive(Debug, PartialEq, Eq)]
pub enum PromoteError {
    Missing { path: String },
    /// The file system on it is damaged.
    Unhealthy { error: String },
    NoParent,
    NoName,
}

/// Plans how the disk of a snapshot becomes the disk of the next cold boot. `health` is
/// what came of looking for damage on it.
pub fn promote_snapshot_rootfs(
    snapshot_path: &str,
    canonical_rootfs: &str,
    present: bool,
    health: &Result<(), String>,
) -> (r: Result<PromotePlan, PromoteError>)
    ensures
        ({
            let source = paths::joined(snapshot_path@, "rootfs.ext4"@);
            if paths::components(source) == paths::components(canonical_rootfs@) {
                r matches Ok(PromotePlan::Nothing)
            } else if !present {
                r matches Err(PromoteError::Missing { path }) && path@ == source
            } else {
                match *health {
                    Err(why) => r matches Err(PromoteError::Unhealthy { error }) && error@ == why@,
                    Ok(()) => match paths::parent_of(canonical_rootfs@) {
                        None => r matches Err(PromoteError::NoParent),
                        Some(dir) => match paths::name_of(canonical_rootfs@) {
                            None => r matches Err(PromoteError::NoName),
                            Some(name) => r matches Ok(PromotePlan::Copy { source: s, temp })
                                && s@ == source && temp@ == paths::joined(
                                dir,
                                "."@ + name + ".promote"@,
                            ),
                        },
                    },
                }
            }
        }),
{
    let source: String = paths::join(snapshot_path, "rootfs.ext4");
    if paths::same_path(source.as_str(), canonical_rootfs) {
        return Ok(PromotePlan::Nothing);
    }
    if !present {
        return Err(PromoteError::Missing { path: source });
    }
    if let Err(why) = health {
        return Err(PromoteError::Unhealthy { error: why.clone() });
    }
    let dir: String = match paths::parent(canonical_rootfs) {
        None => return Err(PromoteError::NoParent),
        Some(dir) => dir,
    };
    let name: String = match paths::file_name(canonical_rootfs) {
        None => return Err(PromoteError::NoName),
        Some(name) => name,
    };
    let mut temp_name: String = ".".to_owned();
    temp_name.append(name.as_str());
    temp_name.append(".promote");
    Ok(PromotePlan::Copy { source, temp: paths::join(dir.as_str(), temp_name.as_str()) })
}

// ---------------------------------------------------------------------------
// Laws of a snapshot's files
// ---------------------------------------------------------------------------

/// A header says what was written into it: the version at its ninth byte, the size of the
/// memory at its seventeenth and the number of processors at its thirty-third, each with
/// its lowest byte first.
pub proof fn lemma_header_fields(header: Seq<u8>, version: u32, memory_bytes: u64, vcpu_count: u32)
    requires
        header.len() == 40,
        header.subrange(8, 12) == bytes::le_bytes(version as nat, 4),
        header.subrange(16, 24) == bytes::le_bytes(memory_bytes as nat, 8),
        header.subrange(32, 36) == bytes::le_bytes(vcpu_count as nat, 4),
    ensures
        config_in(header).version == version,
        config_in(header).memory_bytes == memory_bytes,
        config_in(header).vcpu_count == vcpu_count,
{
    bytes::lemma_byte_ranges();
    bytes::lemma_le_round_trip(version as nat, 4);
    bytes::lemma_le_round_trip(memory_bytes as nat, 8);
    bytes::lemma_le_round_trip(vcpu_count as nat, 4);
}

/// A state that is there can be used where it begins with `LKRNSS01` and has the version
/// 4, and nowhere else; where there is none, nothing is wrong.
pub proof fn lemma_good_headers(b: Vec<u8>, version: u32, error: String)
    requires
        b@.len() == 40,
        b@.subrange(8, 12) == bytes::le_bytes(version as nat, 4),
    ensures
        header_is_good(HeaderRead::Read(b)) <==> {
            &&& b@[0] == 0x4c && b@[1] == 0x4b && b@[2] == 0x52 && b@[3] == 0x4e
            &&& b@[4] == 0x53 && b@[5] == 0x53 && b@[6] == 0x30 && b@[7] == 0x31
            &&& version == 4
        },
        header_is_good(HeaderRead::Missing),
        !header_is_good(HeaderRead::Failed(error)),
{
    bytes::lemma_byte_ranges();
    bytes::lemma_le_round_trip(version as nat, 4);
    let m = vmstate_magic();
    let t = b@.take(8);
    if t == m {
        assert(t[0] == m[0] && t[1] == m[1] && t[2] == m[2] && t[3] == m[3] && t[4] == m[4] && t[5]
            == m[5] && t[6] == m[6] && t[7] == m[7]);
    }
    if b@[0] == 0x4c && b@[1] == 0x4b && b@[2] == 0x52 && b@[3] == 0x4e && b@[4] == 0x53 && b@[5]
        == 0x53 && b@[6] == 0x30 && b@[7] == 0x31 {
        assert(t =~= m);
    }
}

/// A snapshot's generation is that of the first line that gives one.
pub proof fn lemma_generation_of_lines(a: Seq<Seq<char>>, b: Seq<Seq<char>>, value: Seq<char>)
    ensures
        generation_of_lines(a + b) == (if generation_of_lines(a) is Some {
            generation_of_lines(a)
        } else {
            generation_of_lines(b)
        }),
        value.len() > 0 ==> generation_of_lines(seq!["generation_id"@ + seq!['='] + value]) == Some(
            logs::log_word(value),
        ),
        generation_of_lines(seq!["generation_id"@ + seq!['=']]) is None,
        forall|key: Seq<char>, v: Seq<char>|
            !key.contains('=') && key != "generation_id"@ ==> generation_of_lines(
                seq![#[trigger] (key + seq!['='] + v)],
            ) is None,
        generation_of_lines(Seq::empty()) is None,
    decreases a.len(),
{
    reveal_with_fuel(generation_of_lines, 2);
    reveal_strlit("generation_id");
    let key = "generation_id"@;
    assert(!key.contains('='));
    text::lemma_split_once_pair(key, '=', value);
    text::lemma_split_once_pair(key, '=', Seq::empty());
    assert(key + seq!['='] + Seq::<char>::empty() =~= key + seq!['=']);
    let one = seq![key + seq!['='] + value];
    assert(one.skip(1) =~= Seq::<Seq<char>>::empty());
    let none = seq![key + seq!['=']];
    assert(none.skip(1) =~= Seq::<Seq<char>>::empty());
    assert forall|k: Seq<char>, v: Seq<char>|
        !k.contains('=') && k != key implies generation_of_lines(
        seq![#[trigger] (k + seq!['='] + v)],
    ) is None by {
        text::lemma_split_once_pair(k, '=', v);
        let other = seq![k + seq!['='] + v];
        assert(other.skip(1) =~= Seq::<Seq<char>>::empty());
    }
    if a.len() == 0 {
        assert(a + b =~= b);
    } else {
        lemma_generation_of_lines(a.skip(1), b, value);
        assert((a + b).skip(1) =~= a.skip(1) + b);
        assert((a + b)[0] == a[0]);
    }
}

proof fn lemma_digits_are_plain(n: nat)
    ensures
        !text::dec(n).contains(' '),
        !text::dec(n).contains('\n'),
        !text::dec(n).contains('\r'),
        text::dec(n).len() > 0,
{
    text::lemma_dec_round_trip(n);
    let d = text::dec(n);
    assert forall|i: int| 0 <= i < d.len() implies d[i] != ' ' && d[i] != '\n' && d[i] != '\r' by {
        assert(text::is_digit(d[i]));
    }
}

proof fn lemma_modified_is_plain(modified: Option<u128>)
    ensures
        !modified_text(modified).contains(' '),
        !modified_text(modified).contains('\n'),
        !modified_text(modified).contains('\r'),
        modified_text(modified).len() > 0,
{
    reveal_strlit("unknown");
    if let Some(n) = modified {
        lemma_digits_are_plain(n as nat);
    }
}

proof fn lemma_plain_sum(a: Seq<char>, b: Seq<char>, c: char)
    requires
        !a.contains(c),
        !b.contains(c),
    ensures
        !(a + b).contains(c),
{
    if (a + b).contains(c) {
        let k = choose|k: int| 0 <= k < (a + b).len() && (a + b)[k] == c;
        if k < a.len() {
            assert(a[k] == c);
        } else {
            assert(b[k - a.len()] == c);
        }
    }
}

/// A file's fingerprint has five words: its size, when it was changed, its device, its
/// number there and its blocks.
#[verifier::spinoff_prover]
#[verifier::rlimit(40)]
pub proof fn lemma_fingerprint_has_five_words(path: Seq<char>, f: FileStat)
    ensures
        text::split_on(fingerprint(path, StatRead::Found(f)), ' ') == seq![
            "size="@ + text::dec(f.size as nat),
            "modified_unix_nanos="@ + modified_text(f.modified_unix_nanos),
            "dev="@ + text::dec(f.dev as nat),
            "ino="@ + text::dec(f.ino as nat),
            "blocks="@ + text::dec(f.blocks as nat),
        ],
{
    reveal_strlit("size=");
    reveal_strlit("modified_unix_nanos=");
    reveal_strlit("dev=");
    reveal_strlit("ino=");
    reveal_strlit("blocks=");
    reveal_strlit(" modified_unix_nanos=");
    reveal_strlit(" dev=");
    reveal_strlit(" ino=");
    reveal_strlit(" blocks=");
    let w0 = "size="@ + text::dec(f.size as nat);
    let w1 = "modified_unix_nanos="@ + modified_text(f.modified_unix_nanos);
    let w2 = "dev="@ + text::dec(f.dev as nat);
    let w3 = "ino="@ + text::dec(f.ino as nat);
    let w4 = "blocks="@ + text::dec(f.blocks as nat);
    lemma_digits_are_plain(f.size as nat);
    lemma_modified_is_plain(f.modified_unix_nanos);
    lemma_digits_are_plain(f.dev as nat);
    lemma_digits_are_plain(f.ino as nat);
    lemma_digits_are_plain(f.blocks as nat);
    lemma_plain_sum("size="@, text::dec(f.size as nat), ' ');
    lemma_plain_sum("modified_unix_nanos="@, modified_text(f.modified_unix_nanos), ' ');
    lemma_plain_sum("dev="@, text::dec(f.dev as nat), ' ');
    lemma_plain_sum("ino="@, text::dec(f.ino as nat), ' ');
    lemma_plain_sum("blocks="@, text::dec(f.blocks as nat), ' ');
    text::lemma_split_of_one(w0, ' ');
    text::lemma_split_of_one(w1, ' ');
    text::lemma_split_of_one(w2, ' ');
    text::lemma_split_of_one(w3, ' ');
    text::lemma_split_of_one(w4, ' ');
    let s = seq![' '];
    let a1 = w0 + s + w1;
    let a2 = a1 + s + w2;
    let a3 = a2 + s + w3;
    let a4 = a3 + s + w4;
    text::lemma_split_of_two(w0, w1, ' ');
    text::lemma_split_of_two(a1, w2, ' ');
    text::lemma_split_of_two(a2, w3, ' ');
    text::lemma_split_of_two(a3, w4, ' ');
    assert(" modified_unix_nanos="@ =~= s + "modified_unix_nanos="@);
    assert(" dev="@ =~= s + "dev="@);
    assert(" ino="@ =~= s + "ino="@);
    assert(" blocks="@ =~= s + "blocks="@);
    assert(fingerprint(path, StatRead::Found(f)) =~= a4);
    assert(text::split_on(a4, ' ') =~= seq![w0, w1, w2, w3, w4]);
}

/// A manifest has five lines for a file that is there: its size, when it was changed, its
/// device, its number there and its blocks.
#[verifier::spinoff_prover]
#[verifier::rlimit(60)]
pub proof fn lemma_manifest_has_five_lines(name: Seq<char>, f: FileStat)
    requires
        !name.contains('\n'),
    ensures
        text::lines_of(file_manifest(name, StatRead::Found(f))) == seq![
            name + ".size="@ + text::dec(f.size as nat),
            name + ".modified_unix_nanos="@ + modified_text(f.modified_unix_nanos),
            name + ".dev="@ + text::dec(f.dev as nat),
            name + ".ino="@ + text::dec(f.ino as nat),
            name + ".blocks="@ + text::dec(f.blocks as nat),
        ],
{
    reveal_strlit(".size=");
    reveal_strlit(".modified_unix_nanos=");
    reveal_strlit(".dev=");
    reveal_strlit(".ino=");
    reveal_strlit(".blocks=");
    reveal_strlit("\n");
    assert("\n"@ =~= seq!['\n']);
    let w0 = name + ".size="@ + text::dec(f.size as nat);
    let w1 = name + ".modified_unix_nanos="@ + modified_text(f.modified_unix_nanos);
    let w2 = name + ".dev="@ + text::dec(f.dev as nat);
    let w3 = name + ".ino="@ + text::dec(f.ino as nat);
    let w4 = name + ".blocks="@ + text::dec(f.blocks as nat);
    lemma_manifest_line(name, ".size="@, text::dec(f.size as nat), f.size as nat, None);
    lemma_manifest_line(
        name,
        ".modified_unix_nanos="@,
        modified_text(f.modified_unix_nanos),
        0,
        Some(f.modified_unix_nanos),
    );
    lemma_manifest_line(name, ".dev="@, text::dec(f.dev as nat), f.dev as nat, None);
    lemma_manifest_line(name, ".ino="@, text::dec(f.ino as nat), f.ino as nat, None);
    lemma_manifest_line(name, ".blocks="@, text::dec(f.blocks as nat), f.blocks as nat, None);
    let n = seq!['\n'];
    let none = Seq::<char>::empty();
    let t4 = w4 + n + none;
    let t3 = w3 + n + t4;
    let t2 = w2 + n + t3;
    let t1 = w1 + n + t2;
    let t0 = w0 + n + t1;
    text::lemma_lines_of_empty();
    text::lemma_lines_cons(w4, none);
    text::lemma_lines_cons(w3, t4);
    text::lemma_lines_cons(w2, t3);
    text::lemma_lines_cons(w1, t2);
    text::lemma_lines_cons(w0, t1);
    assert(file_manifest(name, StatRead::Found(f)) =~= t0);
    assert(text::lines_of(t0) =~= seq![w0, w1, w2, w3, w4]);
}

proof fn lemma_manifest_line(
    name: Seq<char>,
    key: Seq<char>,
    value: Seq<char>,
    n: nat,
    modified: Option<Option<u128>>,
)
    requires
        !name.contains('\n'),
        !key.contains('\n'),
        key.len() > 0,
        match modified {
            Some(m) => value == modified_text(m),
            None => value == text::dec(n),
        },
    ensures
        !(name + key + value).contains('\n'),
        (name + key + value).last() != '\r',
        (name + key + value).len() > 0,
{
    match modified {
        Some(m) => lemma_modified_is_plain(m),
        None => lemma_digits_are_plain(n),
    }
    lemma_plain_sum(name, key, '\n');
    lemma_plain_sum(name + key, value, '\n');
    assert((name + key + value).last() == value[value.len() - 1]);
}

/// The line that is found is the first with its beginning; where none has it, none is.
pub proof fn lemma_line_with_prefix(lines: Seq<Seq<char>>, prefix: Seq<char>)
    ensures
        match line_with_prefix(lines, prefix) {
            Some(line) => exists|i: int|
                0 <= i < lines.len() && #[trigger] lines[i] == line && text::begins(line, prefix)
                    && (forall|j: int|
                    0 <= j < i ==> !text::begins(#[trigger] lines[j], prefix)),
            None => forall|i: int|
                0 <= i < lines.len() ==> !text::begins(#[trigger] lines[i], prefix),
        },
    decreases lines.len(),
{
    if lines.len() > 0 && !text::begins(lines[0], prefix) {
        let rest = lines.skip(1);
        lemma_line_with_prefix(rest, prefix);
        match line_with_prefix(rest, prefix) {
            Some(line) => {
                let i = choose|i: int|
                    0 <= i < rest.len() && #[trigger] rest[i] == line && text::begins(line, prefix)
                        && (forall|j: int|
                        0 <= j < i ==> !text::begins(#[trigger] rest[j], prefix));
                assert(lines[i + 1] == line);
                assert forall|j: int| 0 <= j < i + 1 implies !text::begins(
                    #[trigger] lines[j],
                    prefix,
                ) by {
                    if j > 0 {
                        assert(rest[j - 1] == lines[j]);
                    }
                }
            },
            None => {
                assert forall|i: int| 0 <= i < lines.len() implies !text::begins(
                    #[trigger] lines[i],
                    prefix,
                ) by {
                    if i > 0 {
                        assert(rest[i - 1] == lines[i]);
                    }
                }
            },
        }
    } else if lines.len() > 0 {
        assert(lines[0] == lines[0]);
    }
}

/// A guest agent is told by the source that its stamp names, before anything else, and by
/// its binary only where no source is named.
pub proof fn lemma_initramfs_key(stamp: Seq<char>)
    ensures
        ({
            let lines = text::lines_of(stamp);
            &&& (exists|i: int|
                0 <= i < lines.len() && text::begins(#[trigger] lines[i], "source="@))
                ==> initramfs_key(stamp) == line_with_prefix(lines, "source="@)
                && initramfs_key(stamp) is Some
            &&& (forall|i: int|
                0 <= i < lines.len() ==> !text::begins(#[trigger] lines[i], "source="@))
                ==> initramfs_key(stamp) == line_with_prefix(lines, "sha256="@)
        }),
{
    lemma_line_with_prefix(text::lines_of(stamp), "source="@);
}

/// A disk is newer than its memory where it was changed more than a second behind both of
/// the memory's files.
pub proof fn lemma_when_a_disk_is_newer(times: SnapshotTimes)
    ensures
        disk_is_newer(times) <==> times.rootfs > times.vmstate + 1000000000 && times.rootfs
            > times.pages + 1000000000,
        latest_of(times.vmstate, times.pages) >= times.vmstate,
        latest_of(times.vmstate, times.pages) >= times.pages,
        latest_of(times.vmstate, times.pages) == times.vmstate || latest_of(
            times.vmstate,
            times.pages,
        ) == times.pages,
{
}

/// Two paths lead to one snapshot where they are written alike or lead to one place; which
/// of them comes first does not count.
pub proof fn lemma_same_snapshot(
    left: Seq<char>,
    right: Seq<char>,
    left_place: Option<Seq<char>>,
    right_place: Option<Seq<char>>,
)
    ensures
        same_snapshot(left, right, left_place, right_place) == same_snapshot(
            right,
            left,
            right_place,
            left_place,
        ),
        same_snapshot(left, left, left_place, right_place),
        left_place is Some ==> same_snapshot(left, right, left_place, left_place),
        !same_snapshot(left, right, left_place, right_place) ==> paths::components(left)
            != paths::components(right),
        left_place is None && same_snapshot(left, right, left_place, right_place)
            ==> paths::components(left) == paths::components(right),
{
}

proof fn lemma_same_value(key: Seq<char>, a: Seq<char>, b: Seq<char>)
    requires
        key + a == key + b,
    ensures
        a == b,
{
    let (x, y) = (key + a, key + b);
    assert(x.len() == key.len() + a.len());
    assert(y.len() == key.len() + b.len());
    assert forall|i: int| 0 <= i < a.len() implies a[i] == b[i] by {
        assert(x[key.len() + i] == a[i]);
        assert(y[key.len() + i] == b[i]);
    }
    assert(a =~= b);
}

proof fn lemma_modified_text(a: Option<u128>, b: Option<u128>)
    ensures
        modified_text(a) == modified_text(b) ==> a == b,
{
    assert("unknown"@.len() == 7 && "unknown"@[0] == 'u') by {
        reveal_strlit("unknown");
    }
    if let Some(n) = a {
        text::lemma_dec_round_trip(n as nat);
        assert(text::is_digit(text::dec(n as nat)[0]));
    }
    if let Some(n) = b {
        text::lemma_dec_round_trip(n as nat);
        assert(text::is_digit(text::dec(n as nat)[0]));
    }
}

/// Two files that differ in size, time, device, number or blocks have two fingerprints,
/// and only such files do.
pub proof fn lemma_fingerprints_tell_files_apart(path: Seq<char>, f: FileStat, g: FileStat)
    ensures
        fingerprint(path, StatRead::Found(f)) == fingerprint(path, StatRead::Found(g)) <==> f == g,
{
    if fingerprint(path, StatRead::Found(f)) == fingerprint(path, StatRead::Found(g)) {
        lemma_fingerprint_has_five_words(path, f);
        lemma_fingerprint_has_five_words(path, g);
        let a = text::split_on(fingerprint(path, StatRead::Found(f)), ' ');
        let b = text::split_on(fingerprint(path, StatRead::Found(g)), ' ');
        assert(a[0] == b[0] && a[1] == b[1] && a[2] == b[2] && a[3] == b[3] && a[4] == b[4]);
        lemma_same_value("size="@, text::dec(f.size as nat), text::dec(g.size as nat));
        lemma_same_value(
            "modified_unix_nanos="@,
            modified_text(f.modified_unix_nanos),
            modified_text(g.modified_unix_nanos),
        );
        lemma_same_value("dev="@, text::dec(f.dev as nat), text::dec(g.dev as nat));
        lemma_same_value("ino="@, text::dec(f.ino as nat), text::dec(g.ino as nat));
        lemma_same_value("blocks="@, text::dec(f.blocks as nat), text::dec(g.blocks as nat));
        text::lemma_numbers_have_their_own_text(f.size as nat, g.size as nat);
        text::lemma_numbers_have_their_own_text(f.dev as nat, g.dev as nat);
        text::lemma_numbers_have_their_own_text(f.ino as nat, g.ino as nat);
        text::lemma_numbers_have_their_own_text(f.blocks as nat, g.blocks as nat);
        lemma_modified_text(f.modified_unix_nanos, g.modified_unix_nanos);
    }
}

proof fn lemma_same_bytes_between(p: Seq<u8>, x: Seq<u8>, y: Seq<u8>, s: Seq<u8>)
    requires
        p + x + s == p + y + s,
    ensures
        x == y,
{
    let (a, b) = (p + x + s, p + y + s);
    assert(a.len() == p.len() + x.len() + s.len());
    assert(b.len() == p.len() + y.len() + s.len());
    assert forall|i: int| 0 <= i < x.len() implies x[i] == y[i] by {
        assert(a[p.len() + i] == x[i]);
        assert(b[p.len() + i] == y[i]);
    }
    assert(x =~= y);
}

proof fn lemma_legacy_part(snapshot: Seq<char>, name: Seq<char>, x: StatRead, y: StatRead)
    requires
        legacy_part(snapshot, name, x) == legacy_part(snapshot, name, y),
    ensures
        fingerprint(paths::joined(snapshot, name), x) == fingerprint(
            paths::joined(snapshot, name),
            y,
        ),
{
    let head = seq![0u8] + deterministic::utf8(name) + seq![0u8];
    let at = paths::joined(snapshot, name);
    let (a, b) = (fingerprint(at, x), fingerprint(at, y));
    let none = Seq::<u8>::empty();
    let (u, v) = (deterministic::utf8(a), deterministic::utf8(b));
    assert(head + u + none =~= legacy_part(snapshot, name, x));
    assert(head + v + none =~= legacy_part(snapshot, name, y));
    lemma_same_bytes_between(head, u, v, none);
    vstd::utf8::encode_utf8_decode_utf8(a);
    vstd::utf8::encode_utf8_decode_utf8(b);
}

/// All three files of a snapshot go into the generation that it is given where it names
/// none: where just one of them changes, other bytes are hashed.
#[verifier::spinoff_prover]
#[verifier::rlimit(40)]
pub proof fn lemma_every_file_counts(
    snapshot: Seq<char>,
    vmstate: FileStat,
    pages: FileStat,
    rootfs: FileStat,
    other: FileStat,
)
    ensures
        ({
            let found = |a: FileStat, b: FileStat, c: FileStat|
                StateStats {
                    vmstate: StatRead::Found(a),
                    pages: StatRead::Found(b),
                    rootfs: StatRead::Found(c),
                };
            let input = legacy_input(snapshot, found(vmstate, pages, rootfs));
            &&& input == legacy_input(snapshot, found(other, pages, rootfs)) <==> vmstate == other
            &&& input == legacy_input(snapshot, found(vmstate, other, rootfs)) <==> pages == other
            &&& input == legacy_input(snapshot, found(vmstate, pages, other)) <==> rootfs == other
        }),
{
    let found = |a: FileStat, b: FileStat, c: FileStat|
        StateStats {
            vmstate: StatRead::Found(a),
            pages: StatRead::Found(b),
            rootfs: StatRead::Found(c),
        };
    let head = deterministic::utf8(snapshot);
    let (v, p, r) = ("vmstate.bin"@, "pages.img"@, "rootfs.ext4"@);
    let pv = legacy_part(snapshot, v, StatRead::Found(vmstate));
    let pp = legacy_part(snapshot, p, StatRead::Found(pages));
    let pr = legacy_part(snapshot, r, StatRead::Found(rootfs));
    let ov = legacy_part(snapshot, v, StatRead::Found(other));
    let op = legacy_part(snapshot, p, StatRead::Found(other));
    let or = legacy_part(snapshot, r, StatRead::Found(other));
    let input = legacy_input(snapshot, found(vmstate, pages, rootfs));
    let none = Seq::<u8>::empty();
    assert(input =~= head + pv + (pp + pr));
    if input == legacy_input(snapshot, found(other, pages, rootfs)) {
        assert(legacy_input(snapshot, found(other, pages, rootfs)) =~= head + ov + (pp + pr));
        lemma_same_bytes_between(head, pv, ov, pp + pr);
        lemma_legacy_part(snapshot, v, StatRead::Found(vmstate), StatRead::Found(other));
        lemma_fingerprints_tell_files_apart(paths::joined(snapshot, v), vmstate, other);
    }
    if input == legacy_input(snapshot, found(vmstate, other, rootfs)) {
        assert(input =~= (head + pv) + pp + pr);
        lemma_same_bytes_between(head + pv, pp, op, pr);
        lemma_legacy_part(snapshot, p, StatRead::Found(pages), StatRead::Found(other));
        lemma_fingerprints_tell_files_apart(paths::joined(snapshot, p), pages, other);
    }
    if input == legacy_input(snapshot, found(vmstate, pages, other)) {
        let front = head + pv + pp;
        assert(input =~= front + pr + none);
        assert(legacy_input(snapshot, found(vmstate, pages, other)) =~= front + or + none);
        lemma_same_bytes_between(front, pr, or, none);
        lemma_legacy_part(snapshot, r, StatRead::Found(rootfs), StatRead::Found(other));
        lemma_fingerprints_tell_files_apart(paths::joined(snapshot, r), rootfs, other);
    }
}

/// The name of such a generation holds the first eight bytes of the digest as a number, and
/// tells any two of them apart.
pub proof fn lemma_legacy_name(a: Seq<u8>, b: Seq<u8>)
    requires
        a.len() >= 8,
        b.len() >= 8,
    ensures
        legacy_name(a).len() == "legacy-"@.len() + 16,
        text::begins(legacy_name(a), "legacy-"@),
        text::hex_number(legacy_name(a).skip("legacy-"@.len() as int)) == bytes::le_value(
            a.take(8),
        ),
        legacy_name(a) == legacy_name(b) ==> bytes::le_value(a.take(8)) == bytes::le_value(
            b.take(8),
        ),
{
    let head = "legacy-"@;
    let (m, n) = (bytes::le_value(a.take(8)), bytes::le_value(b.take(8)));
    bytes::lemma_byte_ranges();
    bytes::lemma_le_fits(a.take(8));
    bytes::lemma_le_fits(b.take(8));
    text::lemma_hex(m, 16);
    text::lemma_hex(n, 16);
    assert(vstd::arithmetic::power::pow(16, 16) == 0x1_0000_0000_0000_0000) by {
        reveal_with_fuel(vstd::arithmetic::power::pow, 17);
    }
    assert(legacy_name(a).subrange(0, head.len() as int) =~= head);
    assert(legacy_name(a).skip(head.len() as int) =~= text::hex(m, 16));
    assert(legacy_name(b).skip(head.len() as int) =~= text::hex(n, 16));
}

/// A snapshot's record has a line for its version, its generation, the run that made it,
/// the time and the disk that it came from, and then those of its three files.
#[verifier::spinoff_prover]
#[verifier::rlimit(40)]
pub proof fn lemma_lines_of_a_record(
    generation_id: Seq<char>,
    source_run_id: Seq<char>,
    created_unix_nanos: u128,
    source_rootfs: Seq<char>,
    stats: StateStats,
)
    requires
        !source_rootfs.contains('\n'),
        source_rootfs.len() == 0 || source_rootfs.last() != '\r',
    ensures
        text::lines_of(
            lifecycle_manifest(
                generation_id,
                lifecycle_details(source_run_id, created_unix_nanos, source_rootfs, stats),
            ),
        ) == seq![
            "version=1"@,
            "generation_id="@ + logs::log_word(generation_id),
            "source_run_id="@ + logs::log_word(source_run_id),
            "created_unix_nanos="@ + text::dec(created_unix_nanos as nat),
            "source_rootfs="@ + source_rootfs,
        ] + text::lines_of(
            file_manifest("vmstate.bin"@, stats.vmstate) + file_manifest("pages.img"@, stats.pages)
                + file_manifest("rootfs.ext4"@, stats.rootfs),
        ),
{
    assert("version=1\n"@ =~= "version=1"@ + seq!['\n'] && !"version=1"@.contains('\n')
        && "version=1"@.last() != '\r' && "version=1"@.len() > 0) by {
        reveal_strlit("version=1\n");
        reveal_strlit("version=1");
    }
    assert("\n"@ =~= seq!['\n']) by {
        reveal_strlit("\n");
    }
    assert(!"generation_id="@.contains('\n') && "generation_id="@.last() == '='
        && "generation_id="@.len() > 0) by {
        reveal_strlit("generation_id=");
    }
    assert(!"source_run_id="@.contains('\n') && "source_run_id="@.last() == '='
        && "source_run_id="@.len() > 0) by {
        reveal_strlit("source_run_id=");
    }
    assert(!"created_unix_nanos="@.contains('\n') && "created_unix_nanos="@.last() == '='
        && "created_unix_nanos="@.len() > 0) by {
        reveal_strlit("created_unix_nanos=");
    }
    assert(!"source_rootfs="@.contains('\n') && "source_rootfs="@.last() == '='
        && "source_rootfs="@.len() > 0) by {
        reveal_strlit("source_rootfs=");
    }
    let n = seq!['\n'];
    let l0 = "version=1"@;
    let l1 = "generation_id="@ + logs::log_word(generation_id);
    let l2 = "source_run_id="@ + logs::log_word(source_run_id);
    let l3 = "created_unix_nanos="@ + text::dec(created_unix_nanos as nat);
    let l4 = "source_rootfs="@ + source_rootfs;
    let files = file_manifest("vmstate.bin"@, stats.vmstate) + file_manifest(
        "pages.img"@,
        stats.pages,
    ) + file_manifest("rootfs.ext4"@, stats.rootfs);
    lemma_word_stays_on_its_line(generation_id);
    lemma_word_stays_on_its_line(source_run_id);
    lemma_digits_are_plain(created_unix_nanos as nat);
    lemma_record_line("generation_id="@, logs::log_word(generation_id));
    lemma_record_line("source_run_id="@, logs::log_word(source_run_id));
    lemma_record_line("source_rootfs="@, source_rootfs);
    assert(text::dec(created_unix_nanos as nat).last() != '\r') by {
        let d = text::dec(created_unix_nanos as nat);
        if d.last() == '\r' {
            assert(d.contains(d[d.len() - 1]));
        }
    }
    lemma_record_line("created_unix_nanos="@, text::dec(created_unix_nanos as nat));
    let t4 = l4 + n + files;
    let t3 = l3 + n + t4;
    let t2 = l2 + n + t3;
    let t1 = l1 + n + t2;
    let t0 = l0 + n + t1;
    text::lemma_lines_cons(l4, files);
    text::lemma_lines_cons(l3, t4);
    text::lemma_lines_cons(l2, t3);
    text::lemma_lines_cons(l1, t2);
    text::lemma_lines_cons(l0, t1);
    let details = lifecycle_details(source_run_id, created_unix_nanos, source_rootfs, stats);
    lemma_details(source_run_id, created_unix_nanos, source_rootfs, stats);
    assert(details == t2);
    assert(lifecycle_manifest(generation_id, details) =~= t0);
    assert(text::lines_of(t0) =~= seq![l0, l1, l2, l3, l4] + text::lines_of(files));
}

#[verifier::spinoff_prover]
#[verifier::rlimit(40)]
proof fn lemma_details(
    source_run_id: Seq<char>,
    created_unix_nanos: u128,
    source_rootfs: Seq<char>,
    stats: StateStats,
)
    ensures
        lifecycle_details(source_run_id, created_unix_nanos, source_rootfs, stats) == (
        "source_run_id="@ + logs::log_word(source_run_id)) + seq!['\n'] + (("created_unix_nanos="@
            + text::dec(created_unix_nanos as nat)) + seq!['\n'] + (("source_rootfs="@
            + source_rootfs) + seq!['\n'] + (file_manifest("vmstate.bin"@, stats.vmstate)
            + file_manifest("pages.img"@, stats.pages) + file_manifest(
            "rootfs.ext4"@,
            stats.rootfs,
        )))),
{
    assert("\n"@ =~= seq!['\n']) by {
        reveal_strlit("\n");
    }
    let n = seq!['\n'];
    let a = "source_run_id="@ + logs::log_word(source_run_id);
    let b = "created_unix_nanos="@;
    let c = text::dec(created_unix_nanos as nat);
    let d = "source_rootfs="@;
    let (x, y, z) = (
        file_manifest("vmstate.bin"@, stats.vmstate),
        file_manifest("pages.img"@, stats.pages),
        file_manifest("rootfs.ext4"@, stats.rootfs),
    );
    let head = a + n + b + c + n + d + source_rootfs + n;
    assert(head + x + y + z =~= head + (x + y + z));
    assert(head =~= a + n + ((b + c) + n + ((d + source_rootfs) + n)));
    let f = x + y + z;
    assert(a + n + ((b + c) + n + ((d + source_rootfs) + n)) + f =~= a + n + ((b + c) + n + ((d
        + source_rootfs) + n + f)));
}

proof fn lemma_word_stays_on_its_line(s: Seq<char>)
    ensures
        !logs::log_word(s).contains('\n'),
        s.len() > 0 ==> logs::log_word(s).last() != '\r',
        logs::log_word(s).len() == s.len(),
{
    logs::lemma_log_word_is_one_word(s);
    let w = logs::log_word(s);
    if w.contains('\n') {
        let k = choose|k: int| 0 <= k < w.len() && w[k] == '\n';
        assert(w[k] != '\n');
    }
    if s.len() > 0 {
        assert(w[w.len() - 1] != '\r');
    }
}

proof fn lemma_record_line(key: Seq<char>, value: Seq<char>)
    requires
        !key.contains('\n'),
        key.len() > 0,
        key.last() == '=',
        !value.contains('\n'),
        value.len() == 0 || value.last() != '\r',
    ensures
        !(key + value).contains('\n'),
        (key + value).len() > 0,
        (key + value).last() != '\r',
{
    lemma_plain_sum(key, value, '\n');
    if value.len() > 0 {
        assert((key + value).last() == value[value.len() - 1]);
    } else {
        assert((key + value).last() == key[key.len() - 1]);
    }
}

/// What is wrong with a state's header: that it could not be read, that it does not begin
/// as it should, or that it has another version, which is named.
pub proof fn lemma_which_header_error(snapshot: Seq<char>, header: HeaderRead, e: HeaderError)
    requires
        is_header_error(snapshot, header, e),
        header matches HeaderRead::Read(b) ==> b@.len() == 40,
    ensures
        !(header is Missing),
        e is Unreadable <==> header is Failed,
        e is BadMagic <==> (header matches HeaderRead::Read(b) && b@.take(8) != vmstate_magic()),
        e matches HeaderError::UnsupportedVersion { version, path } ==> (
        header matches HeaderRead::Read(b) && version == bytes::le_value(b@.subrange(8, 12))
            && version != 4),
        !header_is_good(header),
{
}

/// The advice about a snapshot tells the command that clears its instance's snapshots,
/// and speaks of another snapshot exactly where the published one was not asked for.
#[verifier::spinoff_prover]
#[verifier::rlimit(40)]
pub proof fn lemma_guidance_tells_the_command(instance: Seq<char>, is_latest: bool)
    ensures
        text::holds(
            guidance_text(instance, is_latest),
            "lnx --instance "@ + instance + " snapshots clear"@,
        ),
        guidance_text(instance, true).take(14) == "recovery: lnx "@,
        guidance_text(instance, false).take(39) == "recovery: provide a compatible snapshot"@,
{
    let command = "lnx --instance "@ + instance + " snapshots clear"@;
    let (head, tail) = if is_latest {
        ("recovery: "@, " to explicitly cold-boot"@)
    } else {
        (
            "recovery: provide a compatible snapshot; to explicitly cold-boot, run "@,
            " and retry without --snapshot"@,
        )
    };
    lemma_guidance_parts();
    assert(guidance_text(instance, is_latest) =~= head + command + tail);
    text::lemma_held(head, command, tail);
    assert(guidance_text(instance, true).take(14) =~= "recovery: lnx "@) by {
        reveal_strlit("recovery: lnx --instance ");
        reveal_strlit("recovery: lnx ");
    }
    assert(guidance_text(instance, false).take(39)
        =~= "recovery: provide a compatible snapshot"@) by {
        reveal_strlit(
            "recovery: provide a compatible snapshot; to explicitly cold-boot, run lnx --instance ",
        );
        reveal_strlit("recovery: provide a compatible snapshot");
    }
}

#[verifier::spinoff_prover]
#[verifier::rlimit(40)]
proof fn lemma_guidance_parts()
    ensures
        "recovery: lnx --instance "@ == "recovery: "@ + "lnx --instance "@,
        " snapshots clear to explicitly cold-boot"@ == " snapshots clear"@
            + " to explicitly cold-boot"@,
        "recovery: provide a compatible snapshot; to explicitly cold-boot, run lnx --instance "@
            == "recovery: provide a compatible snapshot; to explicitly cold-boot, run "@
            + "lnx --instance "@,
        " snapshots clear and retry without --snapshot"@ == " snapshots clear"@
            + " and retry without --snapshot"@,
{
    assert("recovery: lnx --instance "@ =~= "recovery: "@ + "lnx --instance "@) by {
        reveal_strlit("recovery: lnx --instance ");
        reveal_strlit("recovery: ");
        reveal_strlit("lnx --instance ");
    }
    assert(" snapshots clear to explicitly cold-boot"@ =~= " snapshots clear"@
        + " to explicitly cold-boot"@) by {
        reveal_strlit(" snapshots clear to explicitly cold-boot");
        reveal_strlit(" snapshots clear");
        reveal_strlit(" to explicitly cold-boot");
    }
    assert("recovery: provide a compatible snapshot; to explicitly cold-boot, run lnx --instance "@
        =~= "recovery: provide a compatible snapshot; to explicitly cold-boot, run "@
        + "lnx --instance "@) by {
        reveal_strlit(
            "recovery: provide a compatible snapshot; to explicitly cold-boot, run lnx --instance ",
        );
        reveal_strlit("recovery: provide a compatible snapshot; to explicitly cold-boot, run ");
        reveal_strlit("lnx --instance ");
    }
    assert(" snapshots clear and retry without --snapshot"@ =~= " snapshots clear"@
        + " and retry without --snapshot"@) by {
        reveal_strlit(" snapshots clear and retry without --snapshot");
        reveal_strlit(" snapshots clear");
        reveal_strlit(" and retry without --snapshot");
    }
}

} // verus!
