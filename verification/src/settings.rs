//! Settings that come from the environment.
use vstd::prelude::*;

use crate::text;

verus! {

/// How long a foreground VM stays after its last client, in milliseconds.
pub const DEFAULT_BROKER_IDLE_TTL_MS: u64 = 0;

/// How long a detached VM stays after its last client, in milliseconds.
pub const DEFAULT_OWNER_IDLE_TTL_MS: u64 = 5000;

/// A detached VM counts idle time from its start. With less than this it would be gone
/// before the client that started it has connected.
pub const MIN_OWNER_IDLE_TTL_MS: u64 = 250;

/// How long the guest's agent may take to connect, in milliseconds.
pub const DEFAULT_AGENT_ACCEPT_TIMEOUT_MS: u64 = 90000;

/// How long after a restore a snapshot is taken to prove it, in milliseconds.
pub const DEFAULT_RESTORE_PROOF_DELAY_MS: u64 = 250;

/// How chatty the hypervisor is.
pub const DEFAULT_KRUN_LOG_LEVEL: u32 = 2;

/// A number of milliseconds, or another where the text is none.
pub open spec fn millis_or(value: Option<Seq<char>>, default: u64) -> int {
    match value {
        Some(s) => match text::parsed(s, u64::MAX as nat) {
            Some(n) => n as int,
            None => default as int,
        },
        None => default as int,
    }
}

fn millis_from(value: Option<&str>, default: u64) -> (n: u64)
    ensures
        n == millis_or(text::opt_view(value), default),
{
    match value {
        Some(s) => match text::parse(s, u64::MAX) {
            Some(n) => n,
            None => default,
        },
        None => default,
    }
}

/// How long a foreground VM stays after its last client, in milliseconds.
pub fn broker_idle_ttl_from_env(value: Option<&str>) -> (ms: u64)
    ensures
        ms == millis_or(text::opt_view(value), DEFAULT_BROKER_IDLE_TTL_MS),
        value is None ==> ms == 0,
{
    millis_from(value, DEFAULT_BROKER_IDLE_TTL_MS)
}

/// How long a detached VM stays after its last client, in milliseconds: never less than
/// the minimum.
pub fn owner_idle_ttl_from_env(value: Option<&str>) -> (ms: u64)
    ensures
        ms >= MIN_OWNER_IDLE_TTL_MS,
        ms == (if millis_or(text::opt_view(value), DEFAULT_OWNER_IDLE_TTL_MS) < MIN_OWNER_IDLE_TTL_MS {
            MIN_OWNER_IDLE_TTL_MS as int
        } else {
            millis_or(text::opt_view(value), DEFAULT_OWNER_IDLE_TTL_MS)
        }),
        value is None ==> ms == 5000,
        ms >= 250,
{
    let ms: u64 = millis_from(value, DEFAULT_OWNER_IDLE_TTL_MS);
    if ms < MIN_OWNER_IDLE_TTL_MS {
        MIN_OWNER_IDLE_TTL_MS
    } else {
        ms
    }
}

/// How long a detached VM stays after its last client, in milliseconds; not at all where
/// owners are not reused.
pub fn owner_idle_ttl(debug: Option<&str>, value: Option<&str>) -> (ms: u64)
    ensures
        flag_set(text::opt_view(debug), "nodaemonreuse"@) ==> ms == 0,
        !flag_set(text::opt_view(debug), "nodaemonreuse"@) ==> ms >= MIN_OWNER_IDLE_TTL_MS && ms == (
        if millis_or(text::opt_view(value), DEFAULT_OWNER_IDLE_TTL_MS) < MIN_OWNER_IDLE_TTL_MS {
            MIN_OWNER_IDLE_TTL_MS as int
        } else {
            millis_or(text::opt_view(value), DEFAULT_OWNER_IDLE_TTL_MS)
        }),
        !flag_set(text::opt_view(debug), "nodaemonreuse"@) && value is None ==> ms == 5000,
        ms == 0 || ms >= 250,
{
    if debug_flag_enabled_in(debug, "nodaemonreuse") {
        0
    } else {
        owner_idle_ttl_from_env(value)
    }
}

/// How long the guest's agent may take to connect, in milliseconds.
pub fn agent_accept_timeout_from_env(value: Option<&str>) -> (ms: u64)
    ensures
        ms == millis_or(text::opt_view(value), DEFAULT_AGENT_ACCEPT_TIMEOUT_MS),
        value is None ==> ms == 90000,
{
    millis_from(value, DEFAULT_AGENT_ACCEPT_TIMEOUT_MS)
}

/// How long after a restore a snapshot is taken to prove it, in milliseconds.
pub fn restore_proof_delay_from_env(value: Option<&str>) -> (ms: u64)
    ensures
        ms == millis_or(text::opt_view(value), DEFAULT_RESTORE_PROOF_DELAY_MS),
        value is None ==> ms == 250,
{
    millis_from(value, DEFAULT_RESTORE_PROOF_DELAY_MS)
}

/// How chatty the hypervisor is.
pub fn krun_log_level(value: Option<&str>) -> (level: u32)
    ensures
        level == (match text::opt_view(value) {
            Some(s) => match text::parsed(s, u32::MAX as nat) {
                Some(n) => n as int,
                None => DEFAULT_KRUN_LOG_LEVEL as int,
            },
            None => DEFAULT_KRUN_LOG_LEVEL as int,
        }),
        value is None ==> level == 2,
{
    match value {
        Some(s) => match text::parse(s, u32::MAX as u64) {
            Some(n) => n as u32,
            None => DEFAULT_KRUN_LOG_LEVEL,
        },
        None => DEFAULT_KRUN_LOG_LEVEL,
    }
}

// ---------------------------------------------------------------------------
// Debug flags
// ---------------------------------------------------------------------------

/// Whether a character parts debug flags.
pub open spec fn parts_flags(c: char) -> bool {
    c == ',' || c == ':' || c == ';' || c == ' ' || c == '\t' || c == '\n'
}

/// Whether a word stands in a text between `from` and `to`, with nothing but parting
/// characters, or the ends of the text, around it and none inside it.
pub open spec fn stands_at(s: Seq<char>, word: Seq<char>, from: int) -> bool {
    let to = from + word.len();
    &&& 0 <= from
    &&& to <= s.len()
    &&& s.subrange(from, to) == word
    &&& (from == 0 || parts_flags(s[from - 1]))
    &&& (to == s.len() || parts_flags(s[to]))
}

/// Whether a word is free of parting characters.
pub open spec fn is_word(word: Seq<char>) -> bool {
    forall|i: int| 0 <= i < word.len() ==> !parts_flags(#[trigger] word[i])
}

/// Whether a word stands somewhere in a text.
pub open spec fn stands_in(s: Seq<char>, word: Seq<char>) -> bool {
    is_word(word) && exists|from: int| #[trigger] stands_at(s, word, from)
}

/// Whether a flag is among the debug flags.
pub open spec fn flag_set(value: Option<Seq<char>>, flag: Seq<char>) -> bool {
    match value {
        Some(s) => stands_in(s, flag),
        None => false,
    }
}

fn part(c: char) -> (r: bool)
    ensures
        r == parts_flags(c),
{
    c == ',' || c == ':' || c == ';' || c == ' ' || c == '\t' || c == '\n'
}

fn word_stands_at(s: &Vec<char>, w: &Vec<char>, from: usize) -> (r: bool)
    requires
        from + w.len() <= s.len(),
    ensures
        r == stands_at(s@, w@, from as int),
{
    let to: usize = from + w.len();
    let mut j: usize = from;
    while j < to
        invariant
            from <= j <= to,
            to == from + w@.len(),
            to <= s@.len(),
            forall|i: int| from <= i < j ==> s@[i] == #[trigger] w@[i - from],
        decreases to - j,
    {
        if s[j] != w[j - from] {
            assert(s@.subrange(from as int, to as int)[j - from] != w@[j - from]);
            return false;
        }
        j = j + 1;
    }
    proof {
        assert forall|i: int| 0 <= i < w@.len() implies s@.subrange(from as int, to as int)[i]
            == w@[i] by {
            assert(s@[from + i] == w@[from + i - from]);
        }
        assert(s@.subrange(from as int, to as int) =~= w@);
    }
    (from == 0 || part(s[from - 1])) && (to == s.len() || part(s[to]))
}

fn all_word(w: &Vec<char>) -> (r: bool)
    ensures
        r == is_word(w@),
{
    let mut k: usize = 0;
    while k < w.len()
        invariant
            k <= w@.len(),
            forall|i: int| 0 <= i < k ==> !parts_flags(#[trigger] w@[i]),
        decreases w@.len() - k,
    {
        if part(w[k]) {
            assert(parts_flags(w@[k as int]));
            return false;
        }
        k = k + 1;
    }
    true
}

/// Whether a flag is among the debug flags.
pub fn debug_flag_enabled_in(value: Option<&str>, flag: &str) -> (r: bool)
    ensures
        r == flag_set(text::opt_view(value), flag@),
{
    let s: Vec<char> = match value {
        Some(s) => text::chars(s),
        None => return false,
    };
    let w: Vec<char> = text::chars(flag);
    if !all_word(&w) || w.len() > s.len() {
        return false;
    }
    let last: usize = s.len() - w.len();
    let mut left: usize = last;
    if word_stands_at(&s, &w, last) {
        assert(stands_at(s@, flag@, last as int));
        return true;
    }
    while left > 0
        invariant
            left <= last,
            last == s@.len() - w@.len(),
            w@ == flag@,
            text::opt_view(value) == Some(s@),
            is_word(flag@),
            forall|i: int| left <= i <= last ==> !stands_at(s@, flag@, i),
        decreases left,
    {
        left = left - 1;
        if word_stands_at(&s, &w, left) {
            assert(stands_at(s@, flag@, left as int));
            return true;
        }
    }
    assert forall|i: int| !stands_at(s@, flag@, i) by {
        if stands_at(s@, flag@, i) {
            assert(0 <= i <= last);
        }
    }
    false
}

// ---------------------------------------------------------------------------
// The root disk
// ---------------------------------------------------------------------------

/// How the guest sees its root disk.
#[derive(Clone, Copy, PartialEq, Eq, Structural, Debug)]
pub enum RootfsBackend {
    Pmem,
}

/// A name that no backend has.
#[derive(Debug, PartialEq, Eq)]
pub struct UnknownBackend {
    pub value: String,
}

impl UnknownBackend {
    /// The message shown to the user.
    pub fn message(&self) -> (m: String)
        ensures
            m@ == backend_text(text::quoted_text(self.value@)),
    {
        backend_message(text::quoted(self.value.as_str()).as_str())
    }
}

/// The message for a quoted name that no backend has.
pub open spec fn backend_text(quoted: Seq<char>) -> Seq<char> {
    "LNX_ROOTFS_BACKEND must be 'pmem' or unset, got "@ + quoted
}

/// The message for a quoted name that no backend has.
pub fn backend_message(quoted: &str) -> (m: String)
    ensures
        m@ == backend_text(quoted@),
{
    let mut m: String = "LNX_ROOTFS_BACKEND must be 'pmem' or unset, got ".to_owned();
    m.append(quoted);
    m
}

impl RootfsBackend {
    /// The backend that is asked for; an empty name asks for none.
    pub fn from_env(value: Option<String>) -> (r: Result<Self, UnknownBackend>)
        ensures
            match value {
                None => r == Ok::<Self, UnknownBackend>(RootfsBackend::Pmem),
                Some(name) => if name@.len() == 0 || name@ == "pmem"@ {
                    r == Ok::<Self, UnknownBackend>(RootfsBackend::Pmem)
                } else {
                    r matches Err(e) && e.value@ == name@
                },
            },
    {
        match value {
            None => Ok(RootfsBackend::Pmem),
            Some(name) => if name.as_str().is_empty() || text::same(name.as_str(), "pmem") {
                Ok(RootfsBackend::Pmem)
            } else {
                Err(UnknownBackend { value: name })
            },
        }
    }

    /// The root device of the guest.
    pub fn root_device(&self) -> (s: &'static str)
        ensures
            s@ == "/dev/pmem0"@,
    {
        match self {
            RootfsBackend::Pmem => "/dev/pmem0",
        }
    }
}

// ---------------------------------------------------------------------------
// The time zone
// ---------------------------------------------------------------------------

/// The zone that a link into a zoneinfo tree names.
pub open spec fn zone_of_target(target: Seq<char>) -> Option<Seq<char>> {
    match text::rsplit_once_at(target, "/zoneinfo/"@) {
        Some((_, zone)) => if zone.len() == 0 {
            None
        } else {
            Some(zone)
        },
        None => None,
    }
}

/// The zone that a link into a zoneinfo tree names.
pub fn zone_from_localtime_target(target: &str) -> (r: Option<String>)
    ensures
        match r {
            Some(zone) => zone_of_target(target@) == Some(zone@),
            None => zone_of_target(target@) is None,
        },
{
    match text::rsplit_once_str(target, "/zoneinfo/") {
        Some((_, zone)) => if zone.is_empty() {
            None
        } else {
            Some(zone.to_owned())
        },
        None => None,
    }
}

/// The zone of the host: the one that its link names, or else the one in its file.
pub open spec fn zone_of_host(link: Option<Seq<char>>, file: Option<Seq<char>>) -> Option<Seq<char>> {
    let from_link = match link {
        Some(target) => zone_of_target(target),
        None => None,
    };
    match (from_link, file) {
        (Some(zone), _) => Some(zone),
        (None, Some(raw)) => if text::trimmed(raw).len() == 0 {
            None
        } else {
            Some(text::trimmed(raw))
        },
        (None, None) => None,
    }
}

/// The zone of the host. `link` is where its link points and `file` is what its file
/// says, where there are such.
pub fn host_timezone(link: Option<&str>, file: Option<&str>) -> (r: Option<String>)
    ensures
        match r {
            Some(zone) => zone_of_host(text::opt_view(link), text::opt_view(file)) == Some(zone@),
            None => zone_of_host(text::opt_view(link), text::opt_view(file)) is None,
        },
{
    if let Some(target) = link {
        if let Some(zone) = zone_from_localtime_target(target) {
            return Some(zone);
        }
    }
    match file {
        Some(raw) => {
            let zone = text::trim(raw);
            if zone.is_empty() {
                None
            } else {
                Some(zone.to_owned())
            }
        },
        None => None,
    }
}

// ---------------------------------------------------------------------------
// Laws of settings
// ---------------------------------------------------------------------------

/// A time is what is written, for every number that fits; where nothing is written, or no
/// number, it is the default.
pub proof fn lemma_millis(n: u64, s: Seq<char>, default: u64)
    ensures
        millis_or(Some(text::dec(n as nat)), default) == n,
        millis_or(None, default) == default,
        !text::all_digits(s) && (s.len() == 0 || s[0] != '+') ==> millis_or(Some(s), default)
            == default,
        text::all_digits(s) && text::dec_value(s) > u64::MAX ==> millis_or(Some(s), default)
            == default,
{
    text::lemma_parse_decimal(n as nat, u64::MAX as nat);
    text::lemma_reading_a_number(s, u64::MAX as nat);
}

/// Debug flags are the words between parting characters: a flag is set in two lists
/// exactly where it is set in one of them, and a word alone sets itself and nothing else.
pub proof fn lemma_flags_are_words(a: Seq<char>, c: char, b: Seq<char>, flag: Seq<char>)
    requires
        c == ',' || c == ':' || c == ';' || c == ' ' || c == '\t' || c == '\n',
        is_word(flag),
    ensures
        flag_set(Some(a + seq![c] + b), flag) <==> flag_set(Some(a), flag) || flag_set(
            Some(b),
            flag,
        ),
        is_word(a) ==> (flag_set(Some(a), flag) <==> a == flag),
        !flag_set(None, flag),
{
    let whole = a + seq![c] + b;
    let n = a.len() as int;
    if flag_set(Some(a), flag) {
        let from = choose|from: int| #[trigger] stands_at(a, flag, from);
        assert(whole.subrange(from, from + flag.len()) =~= a.subrange(from, from + flag.len()));
        assert(stands_at(whole, flag, from));
    }
    if flag_set(Some(b), flag) {
        let from = choose|from: int| #[trigger] stands_at(b, flag, from);
        let at = n + 1 + from;
        assert(whole.subrange(at, at + flag.len()) =~= b.subrange(from, from + flag.len()));
        assert(stands_at(whole, flag, at));
    }
    if flag_set(Some(whole), flag) {
        let from = choose|from: int| #[trigger] stands_at(whole, flag, from);
        let to = from + flag.len();
        if to <= n {
            assert(a.subrange(from, to) =~= whole.subrange(from, to));
            assert(stands_at(a, flag, from));
        } else if from > n {
            let at = from - n - 1;
            assert(b.subrange(at, at + flag.len()) =~= whole.subrange(from, to));
            assert(stands_at(b, flag, at));
        } else {
            assert(whole.subrange(from, to)[n - from] == c);
            assert(flag[n - from] == c);
            assert(false);
        }
    }
    if is_word(a) {
        if a == flag {
            assert(a.subrange(0, n) =~= a);
            assert(stands_at(a, flag, 0));
        }
        if flag_set(Some(a), flag) {
            let from = choose|from: int| #[trigger] stands_at(a, flag, from);
            let to = from + flag.len();
            if from > 0 {
                assert(!parts_flags(a[from - 1]));
            }
            if to < a.len() {
                assert(!parts_flags(a[to]));
            }
            assert(a.subrange(0, n) =~= a);
        }
    }
}

/// The zone that a link names is what stands behind the last `/zoneinfo/` of it.
pub proof fn lemma_zone_of_a_link(target: Seq<char>)
    ensures
        match zone_of_target(target) {
            Some(zone) => zone.len() > 0 && exists|front: Seq<char>|
                target == #[trigger] (front + "/zoneinfo/"@ + zone) && (forall|i: int|
                    front.len() < i ==> !#[trigger] text::occurs_at(target, "/zoneinfo/"@, i)),
            None => !text::holds(target, "/zoneinfo/"@) || text::ends(target, "/zoneinfo/"@),
        },
{
    let pat = "/zoneinfo/"@;
    text::lemma_rsplit_at_pattern(target, pat);
    match text::rsplit_once_at(target, pat) {
        Some((front, zone)) => {
            if zone.len() == 0 {
                assert(front + pat + zone =~= front + pat);
                text::lemma_parts_occur(front, Seq::empty(), pat);
                assert(front + Seq::<char>::empty() + pat =~= front + pat);
            }
        },
        None => {},
    }
}

/// The zone of the host is that of its link, and only where the link names none that of
/// its file, without the space around it.
pub proof fn lemma_zone_of_the_host(link: Option<Seq<char>>, file: Option<Seq<char>>)
    ensures
        (link matches Some(t) && zone_of_target(t) is Some) ==> zone_of_host(link, file)
            == zone_of_target(link->Some_0),
        (link is None || zone_of_target(link->Some_0) is None) && file is None ==> zone_of_host(
            link,
            file,
        ) is None,
        (link is None || zone_of_target(link->Some_0) is None) && file is Some ==> (zone_of_host(
            link,
            file,
        ) is Some <==> text::trimmed(file->Some_0).len() > 0) && (zone_of_host(link, file)
            matches Some(z) ==> z == text::trimmed(file->Some_0)),
{
}

} // verus!
