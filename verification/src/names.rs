//! Names that come from outside: of instances, and of uploads.
use vstd::prelude::*;

use crate::digest;
use crate::text;

verus! {

/// Whether a character is a letter or a digit of ASCII.
pub open spec fn is_alphanumeric(c: char) -> bool {
    ('a' <= c && c <= 'z') || ('A' <= c && c <= 'Z') || ('0' <= c && c <= '9')
}

fn alphanumeric(c: char) -> (r: bool)
    ensures
        r == is_alphanumeric(c),
{
    ('a' <= c && c <= 'z') || ('A' <= c && c <= 'Z') || ('0' <= c && c <= '9')
}

/// Whether a character may stand in the name of an instance.
pub open spec fn in_instance_name(c: char) -> bool {
    is_alphanumeric(c) || c == '-' || c == '_' || c == '.'
}

/// Whether a text is the name of an instance: letters, digits, `-`, `_` and `.`, and not
/// a name that means a directory.
pub open spec fn is_instance_name(s: Seq<char>) -> bool {
    &&& s.len() > 0
    &&& s != seq!['.']
    &&& s != seq!['.', '.']
    &&& forall|i: int| 0 <= i < s.len() ==> in_instance_name(#[trigger] s[i])
}

/// A text that is no name.
#[derive(Debug, PartialEq, Eq)]
pub enum NameError {
    Instance { name: String },
    Session { id: String },
}

impl NameError {
    /// The message shown to the user.
    pub open spec fn text(self) -> Seq<char> {
        match self {
            NameError::Instance { name } => "invalid instance name: "@ + name@,
            NameError::Session { id } => "invalid upload session id: "@ + id@,
        }
    }

    /// The message shown to the user.
    pub fn message(&self) -> (m: String)
        ensures
            m@ == self.text(),
    {
        match self {
            NameError::Instance { name } => {
                let mut m: String = "invalid instance name: ".to_owned();
                m.append(name.as_str());
                m
            },
            NameError::Session { id } => {
                let mut m: String = "invalid upload session id: ".to_owned();
                m.append(id.as_str());
                m
            },
        }
    }
}

/// Whether a text is the name of an instance.
pub fn instance_name_is_valid(name: &str) -> (r: bool)
    ensures
        r == is_instance_name(name@),
{
    proof {
        reveal_strlit(".");
        reveal_strlit("..");
        assert("."@ =~= seq!['.']);
        assert(".."@ =~= seq!['.', '.']);
    }
    if name.is_empty() || text::same(name, ".") || text::same(name, "..") {
        return false;
    }
    let v: Vec<char> = text::chars(name);
    let mut i: usize = 0;
    while i < v.len()
        invariant
            i <= v@.len(),
            v@ == name@,
            forall|k: int| 0 <= k < i ==> in_instance_name(#[trigger] name@[k]),
        decreases v@.len() - i,
    {
        let c: char = v[i];
        if !(alphanumeric(c) || c == '-' || c == '_' || c == '.') {
            assert(!in_instance_name(name@[i as int]));
            return false;
        }
        i = i + 1;
    }
    true
}

/// Checks the name of an instance.
pub fn validate_instance_name(name: &str) -> (r: Result<(), NameError>)
    ensures
        r is Ok <==> is_instance_name(name@),
        r matches Err(e) ==> e matches NameError::Instance { name: n } && n@ == name@,
{
    if instance_name_is_valid(name) {
        Ok(())
    } else {
        Err(NameError::Instance { name: name.to_owned() })
    }
}

/// The name of an instance never leaves its directory: it holds no separator.
pub proof fn lemma_instance_name_is_one_component(s: Seq<char>)
    requires
        is_instance_name(s),
    ensures
        !s.contains('/'),
        crate::paths::components(s) == seq![s],
        crate::paths::is_name(s),
{
    if s.contains('/') {
        let i = choose|i: int| 0 <= i < s.len() && s[i] == '/';
        assert(in_instance_name(s[i]));
    }
    assert(s[0] != '/') by {
        assert(in_instance_name(s[0]));
    }
    text::lemma_first_index(s, '/', s.len() as int);
    reveal_with_fuel(crate::paths::counted, 2);
    assert(text::split_on(s, '/') =~= seq![s]);
    assert(seq![s].skip(1) =~= Seq::<Seq<char>>::empty());
    assert(seq![s] + Seq::<Seq<char>>::empty() =~= seq![s]);
    assert(s != seq!['/']) by {
        if s == seq!['/'] {
            assert(s[0] == '/');
        }
    }
}

// ---------------------------------------------------------------------------
// Uploads
// ---------------------------------------------------------------------------

/// Whether a character may stand in the id of an upload.
pub open spec fn in_session_id(c: char) -> bool {
    is_alphanumeric(c) || c == '-' || c == '_'
}

/// How long the id of an upload may be.
pub const SESSION_ID_MAX: usize = 128;

/// Whether a text is the id of an upload.
pub open spec fn is_session_id(s: Seq<char>) -> bool {
    &&& 0 < s.len() <= SESSION_ID_MAX
    &&& forall|i: int| 0 <= i < s.len() ==> in_session_id(#[trigger] s[i])
}

/// Whether a text is the id of an upload.
pub fn session_id_is_valid(value: &str) -> (r: bool)
    ensures
        r == is_session_id(value@),
{
    let v: Vec<char> = text::chars(value);
    if v.len() == 0 || v.len() > SESSION_ID_MAX {
        return false;
    }
    let mut i: usize = 0;
    while i < v.len()
        invariant
            i <= v@.len(),
            v@ == value@,
            forall|k: int| 0 <= k < i ==> in_session_id(#[trigger] value@[k]),
        decreases v@.len() - i,
    {
        let c: char = v[i];
        if !(alphanumeric(c) || c == '-' || c == '_') {
            assert(!in_session_id(value@[i as int]));
            return false;
        }
        i = i + 1;
    }
    true
}

/// Checks the id of an upload.
pub fn validate_session_id(value: &str) -> (r: Result<(), NameError>)
    ensures
        r is Ok <==> is_session_id(value@),
        r matches Err(e) ==> e matches NameError::Session { id } && id@ == value@,
{
    if session_id_is_valid(value) {
        Ok(())
    } else {
        Err(NameError::Session { id: value.to_owned() })
    }
}

/// What the id of an upload is made of.
pub open spec fn session_seed(target: Seq<char>, unix_nanos: u128, pid: u32) -> Seq<char> {
    target + ":"@ + text::dec(unix_nanos as nat) + ":"@ + text::dec(pid as nat)
}

/// The id of an upload for a digest: the target, and the start of the digest.
pub open spec fn session_text(target: Seq<char>, digest_hex: Seq<char>) -> Seq<char> {
    target + "-"@ + digest_hex.take(16)
}

/// The id of an upload for a digest.
pub fn session_id_for_digest(target: &str, digest_hex: &str) -> (s: String)
    requires
        digest_hex@.len() >= 16,
    ensures
        s@ == session_text(target@, digest_hex@),
{
    let mut s: String = target.to_owned();
    s.append("-");
    assert(digest_hex@.subrange(0, 16) =~= digest_hex@.take(16));
    s.append(digest_hex.substring_char(0, 16));
    s
}

/// A new id for an upload to a target: told by the time and the process.
pub fn new_upload_session_id(target: &str, unix_nanos: u128, pid: u32) -> (s: String)
    ensures
        s@ == session_text(
            target@,
            digest::hex_of(
                digest::sha256_of(vstd::utf8::encode_utf8(session_seed(target@, unix_nanos, pid))),
            ),
        ),
{
    let mut seed: String = target.to_owned();
    seed.append(":");
    text::push_dec(&mut seed, unix_nanos);
    seed.append(":");
    text::push_dec(&mut seed, pid as u128);
    let hash: String = digest::sha256_hex(seed.as_str().as_bytes());
    session_id_for_digest(target, hash.as_str())
}

/// A new id is accepted where the target's name has no `.` and is not too long.
pub proof fn lemma_new_session_id_is_valid(target: Seq<char>, digest_hex: Seq<char>)
    requires
        is_instance_name(target),
        !target.contains('.'),
        target.len() <= SESSION_ID_MAX - 17,
        digest::is_sha256_hex(digest_hex),
    ensures
        is_session_id(session_text(target, digest_hex)),
{
    reveal_strlit("-");
    let s = session_text(target, digest_hex);
    assert("-"@.len() == 1);
    assert forall|i: int| 0 <= i < s.len() implies in_session_id(#[trigger] s[i]) by {
        if i < target.len() {
            assert(s[i] == target[i]);
            assert(in_instance_name(target[i]));
            assert(target.contains(target[i]));
        } else if i == target.len() {
            assert(s[i] == '-');
        } else {
            let k = i - target.len() - 1;
            assert(s[i] == digest_hex[k]);
            assert(digest::hex_digit_value(digest_hex[k]) >= 0);
        }
    }
}

/// The characters of a name, by their numbers: ASCII letters and digits, the hyphen and
/// the low line, and in the name of an instance the point.
pub proof fn lemma_characters_of_names(c: char)
    ensures
        ({
            let n = c as u32;
            let letter_or_digit = 48 <= n <= 57 || 65 <= n <= 90 || 97 <= n <= 122;
            &&& in_instance_name(c) <==> letter_or_digit || n == 45 || n == 95 || n == 46
            &&& in_session_id(c) <==> letter_or_digit || n == 45 || n == 95
        }),
{
}

/// A name stays one when it is put behind another, and any part of one that is not empty
/// or made of points alone is one; a session's id has at most 128 characters.
pub proof fn lemma_names_are_made_of_their_characters(a: Seq<char>, b: Seq<char>)
    ensures
        is_instance_name(a) && is_instance_name(b) && (a.len() + b.len() > 2) ==> is_instance_name(
            a + b,
        ),
        is_session_id(a) && is_session_id(b) ==> (is_session_id(a + b) <==> a.len() + b.len()
            <= 128),
        is_instance_name(a) ==> a.len() > 0 && a != seq!['.'] && a != seq!['.', '.'],
        !is_session_id(Seq::empty()) && !is_instance_name(Seq::empty()),
        forall|i: int|
            0 <= i < a.len() && !in_instance_name(#[trigger] a[i]) ==> !is_instance_name(a),
        forall|i: int| 0 <= i < a.len() && !in_session_id(#[trigger] a[i]) ==> !is_session_id(a),
        (forall|i: int| 0 <= i < a.len() ==> in_session_id(#[trigger] a[i])) && 0 < a.len() <= 128
            ==> is_session_id(a),
        (forall|i: int| 0 <= i < a.len() ==> in_instance_name(#[trigger] a[i])) && a.len() > 2
            ==> is_instance_name(a),
{
    if is_instance_name(a) && is_instance_name(b) {
        assert forall|i: int| 0 <= i < (a + b).len() implies in_instance_name(
            #[trigger] (a + b)[i],
        ) by {
            if i < a.len() {
                assert((a + b)[i] == a[i]);
            } else {
                assert((a + b)[i] == b[i - a.len()]);
            }
        }
    }
    if is_session_id(a) && is_session_id(b) {
        assert forall|i: int| 0 <= i < (a + b).len() implies in_session_id(#[trigger] (a + b)[i]) by {
            if i < a.len() {
                assert((a + b)[i] == a[i]);
            } else {
                assert((a + b)[i] == b[i - a.len()]);
            }
        }
    }
}

/// A session's id is the target and sixteen digits of a digest; two digests that differ in
/// those make two ids.
pub proof fn lemma_session_text(target: Seq<char>, x: Seq<char>, y: Seq<char>)
    requires
        x.len() >= 16,
        y.len() >= 16,
    ensures
        session_text(target, x).len() == target.len() + 17,
        session_text(target, x).take(target.len() as int) == target,
        session_text(target, x)[target.len() as int] == '-',
        session_text(target, x).skip(target.len() as int + 1) == x.take(16),
        session_text(target, x) == session_text(target, y) ==> x.take(16) == y.take(16),
{
    reveal_strlit("-");
    assert(session_text(target, x).take(target.len() as int) =~= target);
    assert(session_text(target, x).skip(target.len() as int + 1) =~= x.take(16));
    assert(session_text(target, y).skip(target.len() as int + 1) =~= y.take(16));
}

/// A session's id is made from its target, the time and the process that asks, each of
/// which counts.
pub proof fn lemma_session_seed(target: Seq<char>, unix_nanos: u128, pid: u32)
    requires
        !target.contains(':'),
    ensures
        text::split_on(session_seed(target, unix_nanos, pid), ':') == seq![
            target,
            text::dec(unix_nanos as nat),
            text::dec(pid as nat),
        ],
{
    reveal_strlit(":");
    assert(":"@ =~= seq![':']);
    let (a, b) = (text::dec(unix_nanos as nat), text::dec(pid as nat));
    text::lemma_dec_round_trip(unix_nanos as nat);
    text::lemma_dec_round_trip(pid as nat);
    assert forall|i: int| 0 <= i < a.len() implies a[i] != ':' by {
        assert(text::is_digit(a[i]));
    }
    assert forall|i: int| 0 <= i < b.len() implies b[i] != ':' by {
        assert(text::is_digit(b[i]));
    }
    let x = target + seq![':'] + a;
    let whole = x + seq![':'] + b;
    text::lemma_split_of_one(target, ':');
    text::lemma_split_of_one(a, ':');
    text::lemma_split_of_one(b, ':');
    text::lemma_split_of_two(target, a, ':');
    text::lemma_split_of_two(x, b, ':');
    assert(session_seed(target, unix_nanos, pid) =~= whole);
    assert(text::split_on(whole, ':') =~= seq![target, a, b]);
}

} // verus!
