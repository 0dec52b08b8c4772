//! Log lines and identifiers.
use vstd::prelude::*;

use crate::text;

verus! {

/// What a character becomes inside a JSON string.
pub open spec fn json_char(c: char) -> Seq<char> {
    if c == '"' {
        seq!['\\', '"']
    } else if c == '\\' {
        seq!['\\', '\\']
    } else if c == '\n' {
        seq!['\\', 'n']
    } else if c == '\r' {
        seq!['\\', 'r']
    } else if c == '\t' {
        seq!['\\', 't']
    } else {
        seq![c]
    }
}

/// A text as it stands inside a JSON string.
pub open spec fn json_escaped(s: Seq<char>) -> Seq<char>
    decreases s.len(),
{
    if s.len() == 0 {
        Seq::empty()
    } else {
        json_escaped(s.drop_last()) + json_char(s.last())
    }
}

/// Escapes a text for use inside a JSON string.
pub fn json_escape(value: &str) -> (s: String)
    ensures
        s@ == json_escaped(value@),
{
    let v: Vec<char> = text::chars(value);
    let mut s: String = String::new();
    let mut i: usize = 0;
    while i < v.len()
        invariant
            i <= v@.len(),
            s@ == json_escaped(v@.take(i as int)),
        decreases v@.len() - i,
    {
        let c: char = v[i];
        let ghost before = s@;
        proof {
            assert(v@.take(i + 1).drop_last() =~= v@.take(i as int));
            assert(v@.take(i + 1).last() == c);
        }
        if c == '"' {
            s.push('\\');
            s.push('"');
        } else if c == '\\' {
            s.push('\\');
            s.push('\\');
        } else if c == '\n' {
            s.push('\\');
            s.push('n');
        } else if c == '\r' {
            s.push('\\');
            s.push('r');
        } else if c == '\t' {
            s.push('\\');
            s.push('t');
        } else {
            s.push(c);
        }
        assert(s@ =~= before + json_char(c));
        i = i + 1;
    }
    assert(v@.take(i as int) =~= v@);
    s
}

/// What a character becomes in a logged value.
pub open spec fn log_char(c: char) -> char {
    if c == '\r' || c == '\n' || c == '\t' || c == ' ' {
        '_'
    } else {
        c
    }
}

/// A value as one word: white space becomes an underscore.
pub open spec fn log_word(s: Seq<char>) -> Seq<char> {
    s.map_values(|c: char| log_char(c))
}

/// Makes one word of a value, so that it can stand in a line of `key=value` fields.
pub fn log_value(value: &str) -> (s: String)
    ensures
        s@ == log_word(value@),
{
    let v: Vec<char> = text::chars(value);
    let mut s: String = String::new();
    let mut i: usize = 0;
    while i < v.len()
        invariant
            i <= v@.len(),
            v@ == value@,
            s@ == log_word(value@.take(i as int)),
        decreases v@.len() - i,
    {
        let c: char = v[i];
        if c == '\r' || c == '\n' || c == '\t' || c == ' ' {
            s.push('_');
        } else {
            s.push(c);
        }
        i = i + 1;
        assert(s@ =~= log_word(value@.take(i as int)));
    }
    assert(value@.take(i as int) =~= value@);
    s
}

/// A logged value holds no white space that could end its field or its line.
pub proof fn lemma_log_word_is_one_word(s: Seq<char>)
    ensures
        log_word(s).len() == s.len(),
        forall|i: int|
            0 <= i < s.len() ==> {
                let c = #[trigger] log_word(s)[i];
                c != '\r' && c != '\n' && c != '\t' && c != ' '
            },
        log_word(log_word(s)) == log_word(s),
{
    assert(log_word(log_word(s)) =~= log_word(s));
}

/// A message on one line: carriage returns go, and line ends become ` | `.
pub open spec fn one_line(s: Seq<char>) -> Seq<char>
    decreases s.len(),
{
    if s.len() == 0 {
        Seq::empty()
    } else if s.last() == '\r' {
        one_line(s.drop_last())
    } else if s.last() == '\n' {
        one_line(s.drop_last()) + " | "@
    } else {
        one_line(s.drop_last()).push(s.last())
    }
}

/// A line of the run log: the time in seconds and nanoseconds, then the message.
pub open spec fn run_log_text(secs: u64, nanos: u32, message: Seq<char>) -> Seq<char> {
    text::dec(secs as nat) + "."@ + text::dec_padded(nanos as nat, 9) + " "@ + one_line(message)
        + "\n"@
}

fn one_line_of(message: &str) -> (s: String)
    ensures
        s@ == one_line(message@),
{
    let v: Vec<char> = text::chars(message);
    let mut s: String = String::new();
    let mut i: usize = 0;
    while i < v.len()
        invariant
            i <= v@.len(),
            s@ == one_line(v@.take(i as int)),
        decreases v@.len() - i,
    {
        let c: char = v[i];
        proof {
            assert(v@.take(i + 1).drop_last() =~= v@.take(i as int));
            assert(v@.take(i + 1).last() == c);
        }
        if c == '\n' {
            s.append(" | ");
        } else if c != '\r' {
            s.push(c);
        }
        i = i + 1;
    }
    assert(v@.take(i as int) =~= v@);
    s
}

/// Writes a line of the run log.
pub fn run_log_line(secs: u64, nanos: u32, message: &str) -> (s: String)
    ensures
        s@ == run_log_text(secs, nanos, message@),
{
    let mut s: String = text::decimal(secs as u128);
    s.append(".");
    s.append(text::decimal_padded(nanos as u128, 9).as_str());
    s.append(" ");
    s.append(one_line_of(message).as_str());
    s.append("\n");
    s
}

/// A line of the run log has one line end, which is its last character.
pub proof fn lemma_run_log_message_is_one_line(s: Seq<char>)
    ensures
        !one_line(s).contains('\n'),
    decreases s.len(),
{
    if s.len() > 0 {
        lemma_run_log_message_is_one_line(s.drop_last());
        let rest = one_line(s.drop_last());
        reveal_strlit(" | ");
        if one_line(s).contains('\n') {
            let i = choose|i: int| 0 <= i < one_line(s).len() && one_line(s)[i] == '\n';
            if i < rest.len() {
                assert(rest[i] == '\n');
            }
        }
    }
}

/// The identifier of a run or a snapshot: what it is, when it began, the process that
/// began it, and how many identifiers that process made before.
pub fn lifecycle_id(prefix: &str, unix_nanos: u128, pid: u32, sequence: u64) -> (s: String)
    ensures
        s@ == prefix@ + "-"@ + text::dec(unix_nanos as nat) + "-"@ + text::dec(pid as nat) + "-"@
            + text::dec(sequence as nat),
{
    let mut s: String = prefix.to_owned();
    s.append("-");
    text::push_dec(&mut s, unix_nanos);
    s.append("-");
    text::push_dec(&mut s, pid as u128);
    s.append("-");
    text::push_dec(&mut s, sequence as u128);
    s
}

/// The identifier of this run: the one handed down by the environment as one word, or
/// else a fresh one.
pub fn current_run_id(env: Option<&str>, fresh: String) -> (s: String)
    ensures
        match env {
            Some(value) => if value@.len() > 0 {
                s@ == log_word(value@)
            } else {
                s == fresh
            },
            None => s == fresh,
        },
{
    match env {
        Some(value) => if value.is_empty() {
            fresh
        } else {
            log_value(value)
        },
        None => fresh,
    }
}

/// The time since the previous event of the timing log, which `previous` records as text.
/// Without a readable record it is the time since the log began.
pub fn timing_delta(previous: &str, base: u128, now: u128) -> (delta: u128)
    ensures
        delta == ({
            let last = match text::parsed(text::trimmed(previous@), u128::MAX as nat) {
                Some(n) => n as int,
                None => base as int,
            };
            if now >= last {
                now - last
            } else {
                0
            }
        }),
{
    let last: u128 = match text::parse_wide(text::trim(previous), u128::MAX) {
        Some(n) => n,
        None => base,
    };
    if now >= last {
        now - last
    } else {
        0
    }
}

// ---------------------------------------------------------------------------
// Laws of log texts
// ---------------------------------------------------------------------------

/// A text is escaped character by character: quotes, backslashes, ends of lines and tabs
/// get a backslash, and all else stays as it is.
pub proof fn lemma_json_escaped(a: Seq<char>, b: Seq<char>, c: char)
    ensures
        json_escaped(a + b) == json_escaped(a) + json_escaped(b),
        json_escaped(Seq::empty()) == Seq::<char>::empty(),
        json_escaped(seq!['"']) == seq!['\\', '"'],
        json_escaped(seq!['\\']) == seq!['\\', '\\'],
        json_escaped(seq!['\n']) == seq!['\\', 'n'],
        json_escaped(seq!['\r']) == seq!['\\', 'r'],
        json_escaped(seq!['\t']) == seq!['\\', 't'],
        c != '"' && c != '\\' && c != '\n' && c != '\r' && c != '\t' ==> json_escaped(seq![c])
            == seq![c],
    decreases b.len(),
{
    lemma_json_escaped_of_one('"');
    lemma_json_escaped_of_one('\\');
    lemma_json_escaped_of_one('\n');
    lemma_json_escaped_of_one('\r');
    lemma_json_escaped_of_one('\t');
    lemma_json_escaped_of_one(c);
    if b.len() == 0 {
        assert(a + b =~= a);
        assert(json_escaped(a) + json_escaped(b) =~= json_escaped(a));
    } else {
        lemma_json_escaped(a, b.drop_last(), c);
        assert((a + b).drop_last() =~= a + b.drop_last());
        assert(json_escaped(a + b) =~= json_escaped(a) + json_escaped(b));
    }
}

proof fn lemma_json_escaped_of_one(c: char)
    ensures
        json_escaped(seq![c]) == json_char(c),
{
    reveal_with_fuel(json_escaped, 2);
    assert(seq![c].drop_last() =~= Seq::<char>::empty());
    assert(json_escaped(seq![c]) =~= json_char(c));
}

/// White space becomes a low line where it would end a field, and nothing else changes.
pub proof fn lemma_log_word(s: Seq<char>, i: int)
    requires
        0 <= i < s.len(),
    ensures
        s[i] == ' ' || s[i] == '\t' || s[i] == '\n' || s[i] == '\r' ==> log_word(s)[i] == '_',
        s[i] != ' ' && s[i] != '\t' && s[i] != '\n' && s[i] != '\r' ==> log_word(s)[i] == s[i],
{
}

/// A message is put on one line: an end of line becomes a bar, a carriage return goes,
/// and nothing else changes.
pub proof fn lemma_one_line(a: Seq<char>, b: Seq<char>, c: char)
    ensures
        one_line(a + b) == one_line(a) + one_line(b),
        one_line(Seq::empty()) == Seq::<char>::empty(),
        one_line(seq!['\n']) == seq![' ', '|', ' '],
        one_line(seq!['\r']) == Seq::<char>::empty(),
        c != '\n' && c != '\r' ==> one_line(seq![c]) == seq![c],
    decreases b.len(),
{
    reveal_with_fuel(one_line, 2);
    reveal_strlit(" | ");
    assert(seq!['\n'].drop_last() =~= Seq::<char>::empty());
    assert(seq!['\r'].drop_last() =~= Seq::<char>::empty());
    assert(seq![c].drop_last() =~= Seq::<char>::empty());
    assert(one_line(seq!['\n']) =~= seq![' ', '|', ' ']);
    if c != '\n' && c != '\r' {
        assert(one_line(seq![c]) =~= seq![c]);
    }
    if b.len() == 0 {
        assert(a + b =~= a);
        assert(one_line(a) + one_line(b) =~= one_line(a));
    } else {
        lemma_one_line(a, b.drop_last(), c);
        assert((a + b).drop_last() =~= a + b.drop_last());
        assert(one_line(a + b) =~= one_line(a) + one_line(b));
    }
}

proof fn lemma_one_line_has_no_return(s: Seq<char>)
    ensures
        !one_line(s).contains('\r'),
    decreases s.len(),
{
    if s.len() > 0 {
        lemma_one_line_has_no_return(s.drop_last());
        reveal_strlit(" | ");
        let front = one_line(s.drop_last());
        if one_line(s).contains('\r') {
            let k = choose|k: int| 0 <= k < one_line(s).len() && one_line(s)[k] == '\r';
            if k < front.len() {
                assert(front[k] == '\r');
            }
        }
    }
}

/// What is logged is one line, whatever the message holds: the time in seconds with nine
/// places behind the point, and the message behind a space.
#[verifier::spinoff_prover]
#[verifier::rlimit(40)]
pub proof fn lemma_logged_message_is_one_line(secs: u64, nanos: u32, message: Seq<char>)
    ensures
        text::lines_of(run_log_text(secs, nanos, message)) == seq![
            text::dec(secs as nat) + seq!['.'] + text::dec_padded(nanos as nat, 9) + seq![' ']
                + one_line(message),
        ],
{
    reveal_strlit(".");
    reveal_strlit(" ");
    reveal_strlit("\n");
    let line = text::dec(secs as nat) + seq!['.'] + text::dec_padded(nanos as nat, 9) + seq![' ']
        + one_line(message);
    let whole = line + seq!['\n'] + Seq::<char>::empty();
    assert("."@ =~= seq!['.']);
    assert(" "@ =~= seq![' ']);
    assert("\n"@ =~= seq!['\n']);
    assert(run_log_text(secs, nanos, message) =~= whole);
    lemma_run_log_message_is_one_line(message);
    lemma_one_line_has_no_return(message);
    text::lemma_dec_round_trip(secs as nat);
    text::lemma_dec_round_trip(nanos as nat);
    let s = text::dec(secs as nat);
    let p = text::dec_padded(nanos as nat, 9);
    text::lemma_padded(nanos as nat, 9);
    assert forall|i: int| 0 <= i < p.len() implies p[i] != '\n' by {
        let d = text::dec(nanos as nat);
        let pad = p.len() - d.len();
        if i >= pad {
            assert(p.skip(pad)[i - pad] == p[i]);
            assert(text::is_digit(d[i - pad]));
        }
    }
    assert(!line.contains('\n')) by {
        if line.contains('\n') {
            let k = choose|k: int| 0 <= k < line.len() && line[k] == '\n';
            let m = one_line(message);
            let head = s.len() + p.len() + 2;
            if k < s.len() {
                assert(text::is_digit(s[k]));
            } else if k > s.len() && k < s.len() + 1 + p.len() {
                assert(p[k - s.len() - 1] == '\n');
            } else if k >= head {
                assert(m[k - head] == '\n');
            }
        }
    }
    assert(line.last() != '\r') by {
        let m = one_line(message);
        if m.len() > 0 {
            assert(line.last() == m[m.len() - 1]);
            if m.last() == '\r' {
                assert(m.contains('\r'));
            }
        } else {
            assert(line.last() == ' ');
        }
    }
    text::lemma_lines_of_empty();
    text::lemma_lines_cons(line, Seq::empty());
    assert(text::lines_of(whole) =~= seq![line]);
}

} // verus!
