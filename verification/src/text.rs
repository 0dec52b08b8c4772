//! Text: the small operations on strings that the rest of the library is built on.
//!
//! A text is modelled by its characters, a `Seq<char>`.
use vstd::prelude::*;

verus! {

/// `String::push` of the standard library: it appends one character to the end.
pub assume_specification[ String::push ](s: &mut String, c: char)
    ensures
        final(s)@ == old(s)@.push(c),
;

/// `==` on `str` of the standard library: two texts are equal when they hold the
/// same characters in the same order.
pub assume_specification[ <str as PartialEq>::eq ](a: &str, b: &str) -> (r: bool)
    ensures
        r == (a@ == b@),
;

/// A text as a Rust literal, quoted and escaped.
pub uninterp spec fn quoted_text(s: Seq<char>) -> Seq<char>;

/// Quotes and escapes a text as `<str as core::fmt::Debug>` writes it. The escapes follow
/// tables of printable characters, so the result has only a name here.
#[verifier::external_body]
pub(crate) fn quoted(s: &str) -> (r: String)
    ensures
        r@ == quoted_text(s@),
{
    format!("{s:?}")
}

/// The views of a sequence of strings.
pub open spec fn views(v: Seq<String>) -> Seq<Seq<char>> {
    Seq::new(v.len(), |i: int| v[i]@)
}

/// The view of an optional text.
pub open spec fn opt_view(s: Option<&str>) -> Option<Seq<char>> {
    match s {
        Some(t) => Some(t@),
        None => None,
    }
}

/// The view of an optional string.
pub open spec fn opt_string(s: Option<String>) -> Option<Seq<char>> {
    match s {
        Some(t) => Some(t@),
        None => None,
    }
}

/// Whether two texts hold the same characters.
pub fn same(a: &str, b: &str) -> (r: bool)
    ensures
        r == (a@ == b@),
{
    *a == *b
}

/// Copies a list of texts.
pub fn copy_all(v: &Vec<String>) -> (r: Vec<String>)
    ensures
        views(r@) == views(v@),
{
    let mut r: Vec<String> = Vec::new();
    let mut i: usize = 0;
    while i < v.len()
        invariant
            i <= v@.len(),
            views(r@) == views(v@).take(i as int),
        decreases v@.len() - i,
    {
        let ghost before = views(r@);
        r.push(v[i].clone());
        assert(views(r@) =~= before.push(v@[i as int]@));
        assert(views(v@).take(i + 1) =~= views(v@).take(i as int).push(v@[i as int]@));
        i = i + 1;
    }
    assert(views(v@).take(i as int) =~= views(v@));
    r
}

/// The characters of a text, in order.
pub fn chars(s: &str) -> (v: Vec<char>)
    ensures
        v@ == s@,
{
    let mut v: Vec<char> = Vec::new();
    for c in it: s.chars()
        invariant
            it.seq() == s@,
            v@ == s@.take(it.index() as int),
    {
        v.push(c);
    }
    v
}

// ---------------------------------------------------------------------------
// Numbers
// ---------------------------------------------------------------------------

/// The character of a decimal or hexadecimal digit, in lower case.
pub open spec fn digit_char(d: int) -> char {
    if d < 10 {
        (48 + d) as char
    } else {
        (87 + d) as char
    }
}

/// The decimal form of a natural number, without leading zeros.
pub open spec fn dec(n: nat) -> Seq<char>
    decreases n,
{
    if n < 10 {
        seq![digit_char(n as int)]
    } else {
        dec(n / 10).push(digit_char((n % 10) as int))
    }
}

/// The decimal form of a natural number, with zeros in front up to `width` digits.
pub open spec fn dec_padded(n: nat, width: nat) -> Seq<char> {
    if dec(n).len() >= width {
        dec(n)
    } else {
        Seq::new((width - dec(n).len()) as nat, |i: int| '0') + dec(n)
    }
}

/// The decimal form of an integer, with a sign in front of a negative one.
pub open spec fn dec_signed(n: int) -> Seq<char> {
    if n < 0 {
        seq!['-'] + dec((-n) as nat)
    } else {
        dec(n as nat)
    }
}

/// The last `width` hexadecimal digits of a natural number, with leading zeros.
pub open spec fn hex(n: nat, width: nat) -> Seq<char>
    decreases width,
{
    if width == 0 {
        Seq::empty()
    } else {
        hex(n / 16, (width - 1) as nat).push(digit_char((n % 16) as int))
    }
}

pub open spec fn is_digit(c: char) -> bool {
    '0' <= c <= '9'
}

/// The number that a sequence of decimal digits denotes.
pub open spec fn dec_value(s: Seq<char>) -> nat
    decreases s.len(),
{
    if s.len() == 0 {
        0
    } else {
        (dec_value(s.drop_last()) * 10 + (s.last() as int - '0' as int)) as nat
    }
}

/// Whether a text is one or more decimal digits.
pub open spec fn all_digits(s: Seq<char>) -> bool {
    s.len() > 0 && forall|i: int| 0 <= i < s.len() ==> is_digit(#[trigger] s[i])
}

/// The unsigned number written in a text, at most `max`: decimal digits, with an
/// optional `+` in front.
pub open spec fn parsed(s: Seq<char>, max: nat) -> Option<nat> {
    let digits = if s.len() > 0 && s[0] == '+' {
        s.skip(1)
    } else {
        s
    };
    if all_digits(digits) && dec_value(digits) <= max {
        Some(dec_value(digits))
    } else {
        None
    }
}

/// The `i32` written in a text: decimal digits, with an optional `+` or `-` in front.
pub open spec fn parsed_i32(s: Seq<char>) -> Option<int> {
    if s.len() > 0 && s[0] == '-' {
        if all_digits(s.skip(1)) && dec_value(s.skip(1)) <= 2147483648 {
            Some(-(dec_value(s.skip(1)) as int))
        } else {
            None
        }
    } else {
        match parsed(s, 2147483647) {
            Some(n) => Some(n as int),
            None => None,
        }
    }
}

fn digit(d: u8) -> (c: char)
    requires
        d < 16,
    ensures
        c == digit_char(d as int),
{
    if d < 10 {
        (48u8 + d) as char
    } else {
        (87u8 + d) as char
    }
}

/// Appends the decimal form of `n`.
pub fn push_dec(out: &mut String, n: u128)
    ensures
        final(out)@ == old(out)@ + dec(n as nat),
    decreases n,
{
    if n >= 10 {
        push_dec(out, n / 10);
    }
    let d: u8 = (n % 10) as u8;
    out.push(digit(d));
    proof {
        let before = old(out)@;
        if n >= 10 {
            assert((before + dec((n / 10) as nat)).push(digit_char((n % 10) as int))
                =~= before + dec((n / 10) as nat).push(digit_char((n % 10) as int)));
        } else {
            assert(before.push(digit_char(n as int)) =~= before + seq![digit_char(n as int)]);
        }
    }
}

/// The decimal form of `n`.
pub fn decimal(n: u128) -> (s: String)
    ensures
        s@ == dec(n as nat),
{
    let mut s: String = String::new();
    push_dec(&mut s, n);
    assert(Seq::<char>::empty() + dec(n as nat) =~= dec(n as nat));
    s
}

/// The decimal form of `n`, with zeros in front up to `width` digits.
pub fn decimal_padded(n: u128, width: usize) -> (s: String)
    ensures
        s@ == dec_padded(n as nat, width as nat),
{
    let digits: String = decimal(n);
    let len: usize = digits.as_str().unicode_len();
    let mut s: String = String::new();
    let mut i: usize = len;
    while i < width
        invariant
            s@ == Seq::new(
                (if i <= width {
                    i - len
                } else {
                    0
                }) as nat,
                |k: int| '0',
            ),
            len <= i,
            i <= width || i == len,
        decreases width - i,
    {
        s.push('0');
        i = i + 1;
        assert(s@ =~= Seq::new((i - len) as nat, |k: int| '0'));
    }
    s.append(digits.as_str());
    if len >= width {
        assert(Seq::new(0nat, |k: int| '0') + dec(n as nat) =~= dec(n as nat));
    }
    s
}

/// The decimal form of a signed number.
pub fn decimal_signed(n: i64) -> (s: String)
    ensures
        s@ == dec_signed(n as int),
{
    if n < 0 {
        let mut s: String = String::new();
        s.push('-');
        let magnitude: i128 = 0i128 - (n as i128);
        push_dec(&mut s, magnitude as u128);
        assert(Seq::<char>::empty().push('-') =~= seq!['-']);
        s
    } else {
        decimal(n as u128)
    }
}

/// Appends `n` as `width` hexadecimal digits.
fn push_hex(out: &mut String, n: u64, width: u8)
    ensures
        final(out)@ == old(out)@ + hex(n as nat, width as nat),
    decreases width,
{
    if width > 0 {
        push_hex(out, n / 16, width - 1);
        let d: u8 = (n % 16) as u8;
        out.push(digit(d));
        assert((old(out)@ + hex((n / 16) as nat, (width - 1) as nat)).push(
            digit_char((n % 16) as int),
        ) =~= old(out)@ + hex((n / 16) as nat, (width - 1) as nat).push(
            digit_char((n % 16) as int),
        ));
    } else {
        assert(old(out)@ + Seq::<char>::empty() =~= old(out)@);
    }
}

/// `n` as `width` hexadecimal digits, with leading zeros.
pub fn hexadecimal(n: u64, width: u8) -> (s: String)
    ensures
        s@ == hex(n as nat, width as nat),
{
    let mut s: String = String::new();
    push_hex(&mut s, n, width);
    assert(Seq::<char>::empty() + hex(n as nat, width as nat) =~= hex(n as nat, width as nat));
    s
}

/// The number that the digits `v[from..]` denote, unless it exceeds `max`.
fn digits_value(v: &Vec<char>, from: usize, max: u128) -> (r: Option<u128>)
    requires
        from <= v@.len(),
    ensures
        match r {
            Some(n) => all_digits(v@.skip(from as int)) && dec_value(v@.skip(from as int)) == n
                && n <= max,
            None => !(all_digits(v@.skip(from as int)) && dec_value(v@.skip(from as int)) <= max),
        },
{
    let ghost s = v@.skip(from as int);
    if from == v.len() {
        return None;
    }
    let mut n: u128 = 0;
    let mut i: usize = from;
    while i < v.len()
        invariant
            from <= i <= v@.len(),
            s == v@.skip(from as int),
            forall|k: int| 0 <= k < i - from ==> is_digit(#[trigger] s[k]),
            n == dec_value(s.take(i - from)),
            n <= max,
        decreases v@.len() - i,
    {
        let c: char = v[i];
        assert(s[i - from] == c);
        if c < '0' || c > '9' {
            return None;
        }
        let d: u128 = (c as u32 - '0' as u32) as u128;
        proof {
            let t = s.take(i - from + 1);
            assert(t.drop_last() =~= s.take(i - from));
            assert(t.last() == c);
            assert(dec_value(t) == n * 10 + d);
        }
        if d > max || n > (max - d) / 10 {
            proof {
                lemma_dec_value_monotone(s, i - from + 1);
            }
            return None;
        }
        n = n * 10 + d;
        i = i + 1;
    }
    assert(s.take(i - from) =~= s);
    Some(n)
}

/// A number does not shrink when digits are appended to it.
proof fn lemma_dec_value_monotone(s: Seq<char>, k: int)
    requires
        0 <= k <= s.len(),
    ensures
        all_digits(s) ==> dec_value(s.take(k)) <= dec_value(s),
    decreases s.len() - k,
{
    if k == s.len() {
        assert(s.take(k) =~= s);
    } else {
        lemma_dec_value_monotone(s, k + 1);
        if all_digits(s) {
            let t = s.take(k + 1);
            assert(t.drop_last() =~= s.take(k));
            assert(is_digit(s[k]));
            assert(t.last() == s[k]);
            assert(dec_value(t) >= dec_value(s.take(k)) * 10);
        }
    }
}

/// Reads an unsigned number of at most `max`.
pub fn parse_wide(s: &str, max: u128) -> (r: Option<u128>)
    ensures
        match r {
            Some(n) => parsed(s@, max as nat) == Some(n as nat),
            None => parsed(s@, max as nat) is None,
        },
{
    let v: Vec<char> = chars(s);
    assert(v@.skip(0) =~= v@);
    if v.len() > 0 && v[0] == '+' {
        digits_value(&v, 1, max)
    } else {
        digits_value(&v, 0, max)
    }
}

/// Reads an unsigned number of at most `max`.
pub fn parse(s: &str, max: u64) -> (r: Option<u64>)
    ensures
        match r {
            Some(n) => parsed(s@, max as nat) == Some(n as nat),
            None => parsed(s@, max as nat) is None,
        },
{
    match parse_wide(s, max as u128) {
        Some(n) => Some(n as u64),
        None => None,
    }
}

/// Reads an `i32`.
pub fn parse_i32(s: &str) -> (r: Option<i32>)
    ensures
        match r {
            Some(n) => parsed_i32(s@) == Some(n as int),
            None => parsed_i32(s@) is None,
        },
{
    let v: Vec<char> = chars(s);
    if v.len() > 0 && v[0] == '-' {
        match digits_value(&v, 1, 2147483648) {
            Some(n) => {
                let negative: i64 = 0i64 - (n as i64);
                Some(negative as i32)
            },
            None => None,
        }
    } else {
        match parse(s, 2147483647) {
            Some(n) => Some(n as i32),
            None => None,
        }
    }
}

/// The decimal form of a number is made of digits and denotes that number.
pub proof fn lemma_dec_round_trip(n: nat)
    ensures
        all_digits(dec(n)),
        dec_value(dec(n)) == n,
    decreases n,
{
    if n < 10 {
        let s = dec(n);
        assert(s.drop_last() =~= Seq::<char>::empty());
        assert(dec_value(s.drop_last()) == 0);
        assert(s.last() == digit_char(n as int));
    } else {
        lemma_dec_round_trip(n / 10);
        let s = dec(n);
        assert(s.drop_last() =~= dec(n / 10));
        assert(s.last() == digit_char((n % 10) as int));
    }
}

/// Reading what was written gives the number back.
pub proof fn lemma_parse_decimal(n: nat, max: nat)
    requires
        n <= max,
    ensures
        parsed(dec(n), max) == Some(n),
{
    lemma_dec_round_trip(n);
    assert(is_digit(dec(n)[0]));
}

// ---------------------------------------------------------------------------
// Searching and splitting
// ---------------------------------------------------------------------------

/// Where `c` first occurs in `s`; the length of `s` when it does not.
pub open spec fn first_index(s: Seq<char>, c: char) -> int
    decreases s.len(),
{
    if s.len() == 0 || s[0] == c {
        0
    } else {
        1 + first_index(s.skip(1), c)
    }
}

/// `k` is the first index of `c` exactly when no earlier character is `c`.
pub proof fn lemma_first_index(s: Seq<char>, c: char, k: int)
    requires
        0 <= k <= s.len(),
        forall|j: int| 0 <= j < k ==> s[j] != c,
        k < s.len() ==> s[k] == c,
    ensures
        first_index(s, c) == k,
    decreases s.len(),
{
    if k > 0 {
        let t = s.skip(1);
        assert forall|j: int| 0 <= j < k - 1 implies t[j] != c by {
            assert(t[j] == s[j + 1]);
        }
        lemma_first_index(t, c, k - 1);
    }
}

/// What `first_index` returns: no `c` before it, and `c` at it unless it is the end.
pub proof fn lemma_first_index_is_first(s: Seq<char>, c: char)
    ensures
        0 <= first_index(s, c) <= s.len(),
        forall|j: int| 0 <= j < first_index(s, c) ==> s[j] != c,
        first_index(s, c) < s.len() ==> s[first_index(s, c)] == c,
    decreases s.len(),
{
    if s.len() > 0 && s[0] != c {
        let t = s.skip(1);
        lemma_first_index_is_first(t, c);
        assert forall|j: int| 0 <= j < first_index(s, c) implies s[j] != c by {
            if j > 0 {
                assert(t[j - 1] == s[j]);
            }
        }
    }
}

/// The pieces of `s` between occurrences of `c`: one more than `c` occurs.
pub open spec fn split_on(s: Seq<char>, c: char) -> Seq<Seq<char>>
    decreases s.len(),
{
    let i = first_index(s, c);
    if 0 <= i < s.len() {
        seq![s.take(i)] + split_on(s.skip(i + 1), c)
    } else {
        seq![s]
    }
}

/// Splits a text at every `c`.
pub fn split(s: &str, c: char) -> (r: Vec<String>)
    ensures
        views(r@) == split_on(s@, c),
        r@.len() > 0,
{
    let v: Vec<char> = chars(s);
    let mut r: Vec<String> = Vec::new();
    let mut cur: String = String::new();
    let mut i: usize = 0;
    assert(cur@ + v@.skip(0) =~= v@);
    assert(views(r@) + split_on(s@, c) =~= split_on(s@, c));
    while i < v.len()
        invariant
            i <= v@.len(),
            forall|j: int| 0 <= j < cur@.len() ==> cur@[j] != c,
            views(r@) + split_on(cur@ + v@.skip(i as int), c) == split_on(s@, c),
        decreases v@.len() - i,
    {
        let ghost rest = cur@ + v@.skip(i as int);
        let ghost before = r@;
        if v[i] == c {
            proof {
                assert(rest[cur@.len() as int] == c);
                assert forall|j: int| 0 <= j < cur@.len() implies rest[j] != c by {
                    assert(rest[j] == cur@[j]);
                }
                lemma_first_index(rest, c, cur@.len() as int);
                assert(rest.take(cur@.len() as int) =~= cur@);
                assert(rest.skip(cur@.len() as int + 1) =~= Seq::<char>::empty() + v@.skip(i + 1));
            }
            let ghost piece = cur@;
            r.push(cur);
            cur = String::new();
            proof {
                assert(views(r@) =~= views(before).push(piece));
                assert(views(before) + (seq![piece] + split_on(cur@ + v@.skip(i + 1), c))
                    =~= views(r@) + split_on(cur@ + v@.skip(i + 1), c));
            }
        } else {
            cur.push(v[i]);
            assert(cur@ + v@.skip(i + 1) =~= rest);
        }
        i = i + 1;
    }
    proof {
        let rest = cur@ + v@.skip(i as int);
        assert(rest =~= cur@);
        lemma_first_index(rest, c, rest.len() as int);
        assert(split_on(rest, c) == seq![rest]);
        assert(views(r@.push(cur)) =~= views(r@) + seq![cur@]);
    }
    r.push(cur);
    r
}

/// A text without the carriage return at its end, if it has one.
pub open spec fn without_cr(s: Seq<char>) -> Seq<char> {
    if s.len() > 0 && s.last() == '\r' {
        s.drop_last()
    } else {
        s
    }
}

/// The lines of a text, without their line ends: `\n` or `\r\n`. Text after the last
/// line end is a line too, unless it is empty.
pub open spec fn lines_of(s: Seq<char>) -> Seq<Seq<char>> {
    let pieces = split_on(s, '\n');
    let n = pieces.len() - 1;
    let ended = Seq::new(n as nat, |i: int| without_cr(pieces[i]));
    if pieces[n].len() == 0 {
        ended
    } else {
        ended.push(pieces[n])
    }
}

/// The lines of a text.
pub fn lines(s: &str) -> (r: Vec<String>)
    ensures
        views(r@) == lines_of(s@),
{
    let pieces: Vec<String> = split(s, '\n');
    let n: usize = pieces.len() - 1;
    let ghost parts = split_on(s@, '\n');
    let mut r: Vec<String> = Vec::new();
    let mut i: usize = 0;
    while i < n
        invariant
            i <= n,
            n == pieces@.len() - 1,
            views(pieces@) == parts,
            r@.len() == i,
            forall|k: int| 0 <= k < i ==> (#[trigger] r@[k])@ == without_cr(parts[k]),
        decreases n - i,
    {
        let piece: &str = pieces[i].as_str();
        assert(piece@ == parts[i as int]);
        let len: usize = piece.unicode_len();
        if len > 0 && piece.get_char(len - 1) == '\r' {
            assert(piece@.subrange(0, len - 1) =~= piece@.drop_last());
            r.push(piece.substring_char(0, len - 1).to_owned());
        } else {
            r.push(piece.to_owned());
        }
        i = i + 1;
    }
    assert(pieces@[n as int]@ == parts[n as int]);
    if !pieces[n].as_str().is_empty() {
        r.push(pieces[n].clone());
    }
    assert(views(r@) =~= lines_of(s@));
    r
}

/// A text split at the first `c`, which belongs to neither part.
pub open spec fn split_once_on(s: Seq<char>, c: char) -> Option<(Seq<char>, Seq<char>)> {
    let i = first_index(s, c);
    if 0 <= i < s.len() {
        Some((s.take(i), s.skip(i + 1)))
    } else {
        None
    }
}

/// Splits a text at the first `c`.
pub fn split_once<'a>(s: &'a str, c: char) -> (r: Option<(&'a str, &'a str)>)
    ensures
        match r {
            Some((a, b)) => split_once_on(s@, c) == Some((a@, b@)),
            None => split_once_on(s@, c) is None,
        },
{
    let v: Vec<char> = chars(s);
    let mut i: usize = 0;
    while i < v.len()
        invariant
            i <= v@.len(),
            v@ == s@,
            forall|j: int| 0 <= j < i ==> v@[j] != c,
        decreases v@.len() - i,
    {
        if v[i] == c {
            proof {
                lemma_first_index(s@, c, i as int);
                assert(s@.subrange(0, i as int) =~= s@.take(i as int));
                assert(s@.subrange(i + 1, s@.len() as int) =~= s@.skip(i + 1));
            }
            return Some((s.substring_char(0, i), s.substring_char(i + 1, v.len())));
        }
        i = i + 1;
    }
    proof {
        lemma_first_index(s@, c, s@.len() as int);
    }
    None
}

/// The index of the last `c` in `s`, or -1.
pub open spec fn last_index(s: Seq<char>, c: char) -> int
    decreases s.len(),
{
    if s.len() == 0 {
        -1
    } else if s.last() == c {
        s.len() - 1
    } else {
        last_index(s.drop_last(), c)
    }
}

/// `k` is the last index of `c` exactly when `c` stands there and nowhere after.
pub proof fn lemma_last_index(s: Seq<char>, c: char, k: int)
    requires
        -1 <= k < s.len(),
        forall|j: int| k < j < s.len() ==> s[j] != c,
        k >= 0 ==> s[k] == c,
    ensures
        last_index(s, c) == k,
    decreases s.len(),
{
    if k < s.len() - 1 {
        lemma_last_index(s.drop_last(), c, k);
    }
}

/// A text split at the last `c`, which belongs to neither part.
pub open spec fn rsplit_once_on(s: Seq<char>, c: char) -> Option<(Seq<char>, Seq<char>)> {
    let i = last_index(s, c);
    if 0 <= i < s.len() {
        Some((s.take(i), s.skip(i + 1)))
    } else {
        None
    }
}

/// Splits a text at the last `c`.
pub fn rsplit_once<'a>(s: &'a str, c: char) -> (r: Option<(&'a str, &'a str)>)
    ensures
        match r {
            Some((a, b)) => rsplit_once_on(s@, c) == Some((a@, b@)),
            None => rsplit_once_on(s@, c) is None,
        },
{
    let v: Vec<char> = chars(s);
    let mut i: usize = v.len();
    while i > 0
        invariant
            i <= v@.len(),
            v@ == s@,
            forall|j: int| i <= j < v@.len() ==> v@[j] != c,
        decreases i,
    {
        if v[i - 1] == c {
            proof {
                lemma_last_index(s@, c, i - 1);
                assert(s@.subrange(0, i - 1) =~= s@.take(i - 1));
                assert(s@.subrange(i as int, s@.len() as int) =~= s@.skip(i as int));
            }
            return Some((s.substring_char(0, i - 1), s.substring_char(i, v.len())));
        }
        i = i - 1;
    }
    proof {
        lemma_last_index(s@, c, -1);
    }
    None
}

/// Whether `pat` stands in `s` at `i`.
pub open spec fn occurs_at(s: Seq<char>, pat: Seq<char>, i: int) -> bool {
    0 <= i && i + pat.len() <= s.len() && s.subrange(i, i + pat.len()) == pat
}

/// Whether `s` begins with `pat`.
pub open spec fn begins(s: Seq<char>, pat: Seq<char>) -> bool {
    occurs_at(s, pat, 0)
}

/// Whether `s` ends with `pat`.
pub open spec fn ends(s: Seq<char>, pat: Seq<char>) -> bool {
    occurs_at(s, pat, s.len() - pat.len())
}

/// Whether `pat` stands somewhere in `s`.
pub open spec fn holds(s: Seq<char>, pat: Seq<char>) -> bool {
    exists|i: int| #[trigger] occurs_at(s, pat, i)
}

fn matches_at(v: &Vec<char>, pat: &Vec<char>, at: usize) -> (r: bool)
    requires
        at <= v@.len(),
    ensures
        r == occurs_at(v@, pat@, at as int),
{
    if pat.len() > v.len() - at {
        return false;
    }
    let mut k: usize = 0;
    while k < pat.len()
        invariant
            k <= pat@.len(),
            at + pat@.len() <= v.len(),
            forall|j: int| 0 <= j < k ==> v@[at + j] == pat@[j],
        decreases pat@.len() - k,
    {
        if v[at + k] != pat[k] {
            proof {
                let sub = v@.subrange(at as int, at + pat@.len());
                assert(sub[k as int] == v@[at + k]);
            }
            return false;
        }
        k = k + 1;
    }
    assert(v@.subrange(at as int, at + pat@.len()) =~= pat@);
    true
}

/// Whether a text begins with another.
pub fn starts_with(s: &str, pat: &str) -> (r: bool)
    ensures
        r == begins(s@, pat@),
{
    let v: Vec<char> = chars(s);
    let p: Vec<char> = chars(pat);
    matches_at(&v, &p, 0)
}

/// Whether a text ends with another.
pub fn ends_with(s: &str, pat: &str) -> (r: bool)
    ensures
        r == ends(s@, pat@),
{
    let v: Vec<char> = chars(s);
    let p: Vec<char> = chars(pat);
    if p.len() > v.len() {
        return false;
    }
    matches_at(&v, &p, v.len() - p.len())
}

/// Whether a text holds another.
pub fn contains(s: &str, pat: &str) -> (r: bool)
    ensures
        r == holds(s@, pat@),
{
    let v: Vec<char> = chars(s);
    let p: Vec<char> = chars(pat);
    let mut i: usize = 0;
    while i < v.len()
        invariant
            i <= v@.len(),
            v@ == s@,
            p@ == pat@,
            forall|j: int| 0 <= j < i ==> !occurs_at(s@, pat@, j),
        decreases v@.len() - i,
    {
        if matches_at(&v, &p, i) {
            return true;
        }
        i = i + 1;
    }
    matches_at(&v, &p, i)
}

/// The first index from `from` on at which `pat` stands in `s`.
pub open spec fn first_at(s: Seq<char>, pat: Seq<char>, from: int) -> Option<int>
    decreases s.len() + 1 - from,
{
    if from < 0 || from > s.len() {
        None
    } else if occurs_at(s, pat, from) {
        Some(from)
    } else {
        first_at(s, pat, from + 1)
    }
}

/// A text split at the first occurrence of `pat`, which belongs to neither part.
pub open spec fn split_once_at(s: Seq<char>, pat: Seq<char>) -> Option<(Seq<char>, Seq<char>)> {
    match first_at(s, pat, 0) {
        Some(i) => Some((s.take(i), s.skip(i + pat.len()))),
        None => None,
    }
}

/// Splits a text at the first occurrence of `pat`.
pub fn split_once_str<'a>(s: &'a str, pat: &str) -> (r: Option<(&'a str, &'a str)>)
    ensures
        match r {
            Some((a, b)) => split_once_at(s@, pat@) == Some((a@, b@)),
            None => split_once_at(s@, pat@) is None,
        },
{
    let v: Vec<char> = chars(s);
    let p: Vec<char> = chars(pat);
    let mut i: usize = 0;
    loop
        invariant
            i <= v@.len(),
            v@ == s@,
            p@ == pat@,
            first_at(s@, pat@, 0) == first_at(s@, pat@, i as int),
        decreases v@.len() - i,
    {
        if matches_at(&v, &p, i) {
            proof {
                assert(s@.subrange(0, i as int) =~= s@.take(i as int));
                assert(s@.subrange(i + p@.len(), s@.len() as int) =~= s@.skip(i + pat@.len()));
                assert(i + p@.len() <= v.len());
            }
            return Some((s.substring_char(0, i), s.substring_char(i + p.len(), v.len())));
        }
        if i == v.len() {
            assert(first_at(s@, pat@, i + 1) is None);
            return None;
        }
        i = i + 1;
    }
}

/// The last index up to `to` at which `pat` stands in `s`.
pub open spec fn last_at(s: Seq<char>, pat: Seq<char>, to: int) -> Option<int>
    decreases to + 1,
{
    if to < 0 {
        None
    } else if occurs_at(s, pat, to) {
        Some(to)
    } else {
        last_at(s, pat, to - 1)
    }
}

/// A text split at the last occurrence of `pat`, which belongs to neither part.
pub open spec fn rsplit_once_at(s: Seq<char>, pat: Seq<char>) -> Option<(Seq<char>, Seq<char>)> {
    match last_at(s, pat, s.len() as int) {
        Some(i) => Some((s.take(i), s.skip(i + pat.len()))),
        None => None,
    }
}

/// Splits a text at the last occurrence of `pat`.
pub fn rsplit_once_str<'a>(s: &'a str, pat: &str) -> (r: Option<(&'a str, &'a str)>)
    ensures
        match r {
            Some((a, b)) => rsplit_once_at(s@, pat@) == Some((a@, b@)),
            None => rsplit_once_at(s@, pat@) is None,
        },
{
    let v: Vec<char> = chars(s);
    let p: Vec<char> = chars(pat);
    let mut i: usize = v.len();
    loop
        invariant
            i <= v@.len(),
            v@ == s@,
            p@ == pat@,
            last_at(s@, pat@, s@.len() as int) == last_at(s@, pat@, i as int),
        decreases i,
    {
        if matches_at(&v, &p, i) {
            proof {
                assert(s@.subrange(0, i as int) =~= s@.take(i as int));
                assert(s@.subrange(i + p@.len(), s@.len() as int) =~= s@.skip(i + pat@.len()));
                assert(i + p@.len() <= v.len());
            }
            return Some((s.substring_char(0, i), s.substring_char(i + p.len(), v.len())));
        }
        if i == 0 {
            assert(last_at(s@, pat@, -1) is None);
            return None;
        }
        i = i - 1;
    }
}

/// Whether a character stands in a text.
pub fn contains_char(s: &str, c: char) -> (r: bool)
    ensures
        r == s@.contains(c),
{
    let v: Vec<char> = chars(s);
    let mut i: usize = 0;
    while i < v.len()
        invariant
            i <= v@.len(),
            v@ == s@,
            forall|j: int| 0 <= j < i ==> v@[j] != c,
        decreases v@.len() - i,
    {
        if v[i] == c {
            assert(s@[i as int] == c);
            return true;
        }
        i = i + 1;
    }
    false
}

// ---------------------------------------------------------------------------
// White space
// ---------------------------------------------------------------------------

/// The characters with the Unicode property `White_Space`.
pub open spec fn is_space(c: char) -> bool {
    let u = c as u32;
    ||| 0x9 <= u <= 0xd
    ||| u == 0x20
    ||| u == 0x85
    ||| u == 0xa0
    ||| u == 0x1680
    ||| 0x2000 <= u <= 0x200a
    ||| u == 0x2028
    ||| u == 0x2029
    ||| u == 0x202f
    ||| u == 0x205f
    ||| u == 0x3000
}

/// Whether a character is white space.
pub fn space(c: char) -> (r: bool)
    ensures
        r == is_space(c),
{
    let u: u32 = c as u32;
    (0x9 <= u && u <= 0xd) || u == 0x20 || u == 0x85 || u == 0xa0 || u == 0x1680 || (0x2000 <= u
        && u <= 0x200a) || u == 0x2028 || u == 0x2029 || u == 0x202f || u == 0x205f || u == 0x3000
}

/// A text without the white space at its end.
pub open spec fn trimmed_end(s: Seq<char>) -> Seq<char>
    decreases s.len(),
{
    if s.len() > 0 && is_space(s.last()) {
        trimmed_end(s.drop_last())
    } else {
        s
    }
}

/// A text without the white space at its start.
pub open spec fn trimmed_start(s: Seq<char>) -> Seq<char>
    decreases s.len(),
{
    if s.len() > 0 && is_space(s[0]) {
        trimmed_start(s.skip(1))
    } else {
        s
    }
}

/// A text without the white space at either end.
pub open spec fn trimmed(s: Seq<char>) -> Seq<char> {
    trimmed_end(trimmed_start(s))
}

/// Drops the white space at the end of a text.
pub fn trim_end<'a>(s: &'a str) -> (r: &'a str)
    ensures
        r@ == trimmed_end(s@),
{
    let v: Vec<char> = chars(s);
    let mut n: usize = v.len();
    assert(s@.take(n as int) =~= s@);
    while n > 0 && space(v[n - 1])
        invariant
            n <= v@.len(),
            v@ == s@,
            trimmed_end(s@) == trimmed_end(s@.take(n as int)),
        decreases n,
    {
        assert(s@.take(n as int).drop_last() =~= s@.take(n - 1));
        n = n - 1;
    }
    assert(s@.subrange(0, n as int) =~= s@.take(n as int));
    s.substring_char(0, n)
}

/// Drops the white space at the start of a text.
pub fn trim_start<'a>(s: &'a str) -> (r: &'a str)
    ensures
        r@ == trimmed_start(s@),
{
    let v: Vec<char> = chars(s);
    let mut n: usize = 0;
    assert(s@.skip(0) =~= s@);
    while n < v.len() && space(v[n])
        invariant
            n <= v@.len(),
            v@ == s@,
            trimmed_start(s@) == trimmed_start(s@.skip(n as int)),
        decreases v@.len() - n,
    {
        assert(s@.skip(n as int).skip(1) =~= s@.skip(n + 1));
        n = n + 1;
    }
    assert(s@.subrange(n as int, s@.len() as int) =~= s@.skip(n as int));
    s.substring_char(n, v.len())
}

/// Drops the white space at both ends of a text.
pub fn trim<'a>(s: &'a str) -> (r: &'a str)
    ensures
        r@ == trimmed(s@),
{
    trim_end(trim_start(s))
}

/// The words of a text: its longest runs without white space.
pub open spec fn words_of(s: Seq<char>) -> Seq<Seq<char>>
    decreases s.len(),
{
    if s.len() == 0 {
        Seq::empty()
    } else if is_space(s.last()) {
        words_of(s.drop_last())
    } else {
        let n = last_space(s) + 1;
        proof {
            lemma_last_space(s.drop_last());
        }
        words_of(s.take(n)).push(s.skip(n))
    }
}

/// The index of the last white space in a text, or -1.
pub open spec fn last_space(s: Seq<char>) -> int
    decreases s.len(),
{
    if s.len() == 0 {
        -1
    } else if is_space(s.last()) {
        s.len() - 1
    } else {
        last_space(s.drop_last())
    }
}

/// The last white space stands inside the text.
pub proof fn lemma_last_space(s: Seq<char>)
    ensures
        -1 <= last_space(s) < s.len() || s.len() == 0 && last_space(s) == -1,
    decreases s.len(),
{
    if s.len() > 0 && !is_space(s.last()) {
        lemma_last_space(s.drop_last());
    }
}

/// The words of a text, the last one first.
pub fn words_backwards(s: &str) -> (r: Vec<String>)
    ensures
        views(r@) == words_of(s@).reverse(),
{
    let v: Vec<char> = chars(s);
    let mut r: Vec<String> = Vec::new();
    let mut end: usize = v.len();
    assert(s@.take(end as int) =~= s@);
    assert(views(r@) + words_of(s@).reverse() =~= words_of(s@).reverse());
    while end > 0
        invariant
            end <= v@.len(),
            v@ == s@,
            views(r@) + words_of(s@.take(end as int)).reverse() == words_of(s@).reverse(),
        decreases end,
    {
        let ghost t = s@.take(end as int);
        if space(v[end - 1]) {
            assert(t.drop_last() =~= s@.take(end - 1));
            end = end - 1;
        } else {
            let mut n: usize = end;
            assert(s@.take(n as int) =~= t);
            while n > 0 && !space(v[n - 1])
                invariant
                    n <= end <= v@.len(),
                    v@ == s@,
                    t == s@.take(end as int),
                    last_space(t) == last_space(s@.take(n as int)),
                decreases n,
            {
                assert(s@.take(n as int).drop_last() =~= s@.take(n - 1));
                n = n - 1;
            }
            let ghost before = r@;
            proof {
                let u = s@.take(n as int);
                assert(last_space(t) == n - 1) by {
                    if n == 0 {
                        assert(u =~= Seq::<char>::empty());
                    }
                }
                assert(t.take(n as int) =~= u);
                assert(t.skip(n as int) =~= s@.subrange(n as int, end as int));
                lemma_last_space(t);
                assert(words_of(t) == words_of(u).push(s@.subrange(n as int, end as int)));
            }
            r.push(s.substring_char(n, end).to_owned());
            proof {
                let word = s@.subrange(n as int, end as int);
                assert(views(r@) =~= views(before).push(word));
                assert(words_of(s@.take(n as int)).push(word).reverse() =~= seq![word] + words_of(
                    s@.take(n as int),
                ).reverse());
                assert(views(before) + (seq![word] + words_of(s@.take(n as int)).reverse())
                    =~= views(r@) + words_of(s@.take(n as int)).reverse());
            }
            end = n;
        }
    }
    assert(s@.take(0) =~= Seq::<char>::empty());
    assert(words_of(s@.take(0)).reverse() =~= Seq::<Seq<char>>::empty());
    assert(views(r@) + Seq::<Seq<char>>::empty() =~= views(r@));
    r
}

// ---------------------------------------------------------------------------
// Joining
// ---------------------------------------------------------------------------

/// Texts one after the other, with `sep` between them.
pub open spec fn joined(parts: Seq<Seq<char>>, sep: Seq<char>) -> Seq<char>
    decreases parts.len(),
{
    if parts.len() == 0 {
        Seq::empty()
    } else if parts.len() == 1 {
        parts[0]
    } else {
        joined(parts.drop_last(), sep) + sep + parts.last()
    }
}

/// Joins texts with `sep` between them.
pub fn join(parts: &Vec<String>, sep: &str) -> (s: String)
    ensures
        s@ == joined(views(parts@), sep@),
{
    let ghost all = views(parts@);
    let mut s: String = String::new();
    let mut i: usize = 0;
    while i < parts.len()
        invariant
            i <= parts@.len(),
            all == views(parts@),
            s@ == joined(all.take(i as int), sep@),
        decreases parts@.len() - i,
    {
        proof {
            let next = all.take(i + 1);
            assert(next.drop_last() =~= all.take(i as int));
            assert(next.last() == parts@[i as int]@);
            if i == 0 {
                assert(next[0] == parts@[0]@);
                assert(Seq::<char>::empty() + parts@[0]@ =~= parts@[0]@);
            }
        }
        if i > 0 {
            s.append(sep);
        }
        s.append(parts[i].as_str());
        i = i + 1;
    }
    assert(all.take(i as int) =~= all);
    s
}

/// A line that holds no line end, followed by a line end and more text: its lines are
/// that line and the lines of what follows.
pub proof fn lemma_lines_cons(line: Seq<char>, rest: Seq<char>)
    requires
        !line.contains('\n'),
        line.len() == 0 || line.last() != '\r',
    ensures
        lines_of(line + seq!['\n'] + rest) == seq![line] + lines_of(rest),
{
    let s = line + seq!['\n'] + rest;
    assert forall|j: int| 0 <= j < line.len() implies s[j] != '\n' by {
        assert(s[j] == line[j]);
        assert(line.contains(line[j]));
    }
    lemma_first_index(s, '\n', line.len() as int);
    assert(s.take(line.len() as int) =~= line);
    assert(s.skip(line.len() as int + 1) =~= rest);
    let tail = split_on(rest, '\n');
    lemma_split_is_nonempty(rest, '\n');
    let all = split_on(s, '\n');
    assert(all == seq![line] + tail);
    assert(all[all.len() - 1] == tail[tail.len() - 1]);
    assert(without_cr(line) == line);
    assert(lines_of(s) =~= seq![line] + lines_of(rest));
}

/// Splitting gives at least one piece.
pub proof fn lemma_split_is_nonempty(s: Seq<char>, c: char)
    ensures
        split_on(s, c).len() > 0,
    decreases s.len(),
{
    let i = first_index(s, c);
    if 0 <= i < s.len() {
        lemma_split_is_nonempty(s.skip(i + 1), c);
    }
}

/// The empty text has no lines.
pub proof fn lemma_lines_of_empty()
    ensures
        lines_of(Seq::empty()) == Seq::<Seq<char>>::empty(),
{
    let s = Seq::<char>::empty();
    assert(split_on(s, '\n') == seq![s]);
    assert(lines_of(s) =~= Seq::<Seq<char>>::empty());
}

/// A key without `c`, then `c`, then a value: splitting at the first `c` gives both.
pub proof fn lemma_split_once_pair(key: Seq<char>, c: char, value: Seq<char>)
    requires
        !key.contains(c),
    ensures
        split_once_on(key + seq![c] + value, c) == Some((key, value)),
{
    let s = key + seq![c] + value;
    assert forall|j: int| 0 <= j < key.len() implies s[j] != c by {
        assert(s[j] == key[j]);
        assert(key.contains(key[j]));
    }
    lemma_first_index(s, c, key.len() as int);
    assert(s.take(key.len() as int) =~= key);
    assert(s.skip(key.len() as int + 1) =~= value);
}

// ---------------------------------------------------------------------------
// Order
// ---------------------------------------------------------------------------

/// How two texts stand in alphabetical order: negative when the first comes first, zero
/// when they are the same.
pub open spec fn text_order(a: Seq<char>, b: Seq<char>) -> int
    decreases a.len(),
{
    if a.len() == 0 {
        if b.len() == 0 {
            0
        } else {
            -1
        }
    } else if b.len() == 0 {
        1
    } else if a[0] < b[0] {
        -1
    } else if a[0] > b[0] {
        1
    } else {
        text_order(a.skip(1), b.skip(1))
    }
}

/// Alphabetical order is an order.
pub proof fn lemma_text_order(a: Seq<char>, b: Seq<char>, c: Seq<char>)
    ensures
        text_order(a, a) == 0,
        text_order(a, b) == -text_order(b, a),
        text_order(a, b) == 0 ==> a == b,
        text_order(a, b) <= 0 && text_order(b, c) <= 0 ==> text_order(a, c) <= 0,
    decreases a.len(),
{
    if a.len() > 0 {
        if b.len() > 0 && c.len() > 0 {
            lemma_text_order(a.skip(1), b.skip(1), c.skip(1));
        } else if b.len() > 0 {
            lemma_text_order(a.skip(1), b.skip(1), c);
        } else {
            lemma_text_order(a.skip(1), b, c);
        }
    }
    if text_order(a, b) == 0 {
        if a.len() > 0 && b.len() > 0 {
            assert(a =~= seq![a[0]] + a.skip(1));
            assert(b =~= seq![b[0]] + b.skip(1));
        } else {
            assert(a =~= b);
        }
    }
}

/// How two texts stand in alphabetical order: -1, 0 or 1.
pub fn order_of_texts(a: &str, b: &str) -> (r: i8)
    ensures
        r == text_order(a@, b@),
{
    let x: Vec<char> = chars(a);
    let y: Vec<char> = chars(b);
    let mut i: usize = 0;
    assert(a@.skip(0) =~= a@);
    assert(b@.skip(0) =~= b@);
    while i < x.len() && i < y.len()
        invariant
            i <= x@.len(),
            i <= y@.len(),
            x@ == a@,
            y@ == b@,
            text_order(a@, b@) == text_order(a@.skip(i as int), b@.skip(i as int)),
        decreases x@.len() - i,
    {
        proof {
            assert(a@.skip(i as int).skip(1) =~= a@.skip(i + 1));
            assert(b@.skip(i as int).skip(1) =~= b@.skip(i + 1));
        }
        if x[i] < y[i] {
            return -1;
        }
        if x[i] > y[i] {
            return 1;
        }
        i = i + 1;
    }
    if i < x.len() {
        1
    } else if i < y.len() {
        -1
    } else {
        0
    }
}

// ---------------------------------------------------------------------------
// Laws of splitting
// ---------------------------------------------------------------------------

/// A text without `c` is a single piece.
pub proof fn lemma_split_of_one(s: Seq<char>, c: char)
    requires
        !s.contains(c),
    ensures
        split_on(s, c) == seq![s],
{
    lemma_first_index_is_first(s, c);
    if first_index(s, c) < s.len() {
        assert(s.contains(s[first_index(s, c)]));
    }
}

/// What stands before a `c` and what stands behind it are split apart from each other.
pub proof fn lemma_split_of_two(a: Seq<char>, b: Seq<char>, c: char)
    ensures
        split_on(a + seq![c] + b, c) == split_on(a, c) + split_on(b, c),
    decreases a.len(),
{
    let s = a + seq![c] + b;
    lemma_first_index_is_first(a, c);
    let i = first_index(a, c);
    assert forall|j: int| 0 <= j < i implies s[j] != c by {
        assert(s[j] == a[j]);
    }
    if i < a.len() {
        assert(s[i] == a[i]);
        lemma_first_index(s, c, i);
        assert(s.take(i) =~= a.take(i));
        assert(s.skip(i + 1) =~= a.skip(i + 1) + seq![c] + b);
        lemma_split_of_two(a.skip(i + 1), b, c);
        assert(seq![a.take(i)] + (split_on(a.skip(i + 1), c) + split_on(b, c)) =~= split_on(a, c)
            + split_on(b, c));
    } else {
        assert(s[i] == c);
        lemma_first_index(s, c, i);
        assert(s.take(i) =~= a);
        assert(s.skip(i + 1) =~= b);
    }
}

/// No piece holds the character that the text is split at.
pub proof fn lemma_pieces_are_clean(s: Seq<char>, c: char)
    ensures
        split_on(s, c).len() > 0,
        forall|k: int| 0 <= k < split_on(s, c).len() ==> !(#[trigger] split_on(s, c)[k]).contains(c),
    decreases s.len(),
{
    lemma_first_index_is_first(s, c);
    let i = first_index(s, c);
    let all = split_on(s, c);
    if i < s.len() {
        lemma_pieces_are_clean(s.skip(i + 1), c);
        assert forall|k: int| 0 <= k < all.len() implies !(#[trigger] all[k]).contains(c) by {
            if k == 0 {
                assert(all[0] == s.take(i));
            } else {
                assert(all[k] == split_on(s.skip(i + 1), c)[k - 1]);
            }
        }
    }
}

/// The lines of two texts one after the other are the lines of both, where the first ends
/// with a line end.
pub proof fn lemma_lines_of_two(a: Seq<char>, b: Seq<char>)
    requires
        a.len() == 0 || a.last() == '\n',
    ensures
        lines_of(a + b) == lines_of(a) + lines_of(b),
{
    lemma_split_is_nonempty(b, '\n');
    if a.len() == 0 {
        assert(a =~= Seq::<char>::empty());
        lemma_lines_of_empty();
        assert(a + b =~= b);
        assert(Seq::<Seq<char>>::empty() + lines_of(b) =~= lines_of(b));
    } else {
        let front = a.drop_last();
        let none = Seq::<char>::empty();
        assert(a =~= front + seq!['\n'] + none);
        assert(a + b =~= front + seq!['\n'] + b);
        lemma_split_of_two(front, none, '\n');
        lemma_split_of_two(front, b, '\n');
        lemma_split_of_one(none, '\n');
        let (x, y) = (split_on(front, '\n'), split_on(b, '\n'));
        lemma_split_is_nonempty(front, '\n');
        assert(split_on(a, '\n') == x + seq![none]);
        assert(split_on(a + b, '\n') == x + y);
        assert((x + seq![none])[x.len() as int] == none);
        assert((x + y)[x.len() + y.len() - 1] == y[y.len() - 1]);
        assert(lines_of(a) =~= Seq::new(x.len(), |i: int| without_cr(x[i])));
        assert(lines_of(a + b) =~= lines_of(a) + lines_of(b));
    }
}

/// A text without a line end is a line, unless it is empty; with a line end behind it it is
/// one in any case, and a carriage return before the line end belongs to that.
pub proof fn lemma_lines_of_one(line: Seq<char>)
    requires
        !line.contains('\n'),
    ensures
        line.len() > 0 ==> lines_of(line) == seq![line],
        lines_of(line + seq!['\n']) == seq![
            if line.len() > 0 && line.last() == '\r' {
                line.drop_last()
            } else {
                line
            },
        ],
        lines_of(line + seq!['\r', '\n']) == seq![line],
{
    let none = Seq::<char>::empty();
    lemma_split_of_one(line, '\n');
    if line.len() > 0 {
        assert(lines_of(line) =~= seq![line]);
    }
    lemma_split_of_one(none, '\n');
    lemma_split_of_two(line, none, '\n');
    assert(line + seq!['\n'] + none =~= line + seq!['\n']);
    assert((seq![line] + seq![none])[1] == none);
    assert(lines_of(line + seq!['\n']) =~= seq![without_cr(line)]);
    let with = line.push('\r');
    assert(!with.contains('\n')) by {
        if with.contains('\n') {
            let k = choose|k: int| 0 <= k < with.len() && with[k] == '\n';
            assert(line[k] == '\n');
        }
    }
    lemma_split_of_one(with, '\n');
    lemma_split_of_two(with, none, '\n');
    assert(with + seq!['\n'] + none =~= line + seq!['\r', '\n']);
    assert((seq![with] + seq![none])[1] == none);
    assert(with.drop_last() =~= line);
    assert(lines_of(line + seq!['\r', '\n']) =~= seq![line]);
}

/// Whether a text holds no white space.
pub open spec fn no_space(s: Seq<char>) -> bool {
    forall|i: int| 0 <= i < s.len() ==> !is_space(#[trigger] s[i])
}

proof fn lemma_last_space_is_last(s: Seq<char>)
    ensures
        -1 <= last_space(s) < s.len() || s.len() == 0 && last_space(s) == -1,
        last_space(s) >= 0 ==> is_space(s[last_space(s)]),
        forall|j: int| last_space(s) < j < s.len() ==> !is_space(#[trigger] s[j]),
    decreases s.len(),
{
    if s.len() > 0 && !is_space(s.last()) {
        let t = s.drop_last();
        lemma_last_space_is_last(t);
        assert forall|j: int| last_space(s) < j < s.len() implies !is_space(#[trigger] s[j]) by {
            if j < t.len() {
                assert(t[j] == s[j]);
            }
        }
    }
}

proof fn lemma_last_space_at(s: Seq<char>, k: int)
    requires
        -1 <= k < s.len(),
        k >= 0 ==> is_space(s[k]),
        forall|j: int| k < j < s.len() ==> !is_space(#[trigger] s[j]),
    ensures
        last_space(s) == k,
    decreases s.len(),
{
    if s.len() > 0 && k < s.len() - 1 {
        let t = s.drop_last();
        assert(!is_space(s[s.len() - 1]));
        assert forall|j: int| k < j < t.len() implies !is_space(#[trigger] t[j]) by {
            assert(t[j] == s[j]);
        }
        lemma_last_space_at(t, k);
    }
}

/// A text without white space is a single word, unless it is empty.
pub proof fn lemma_words_of_one(word: Seq<char>)
    requires
        no_space(word),
    ensures
        word.len() > 0 ==> words_of(word) == seq![word],
        words_of(Seq::empty()) == Seq::<Seq<char>>::empty(),
{
    if word.len() > 0 {
        assert(!is_space(word[word.len() - 1]));
        lemma_last_space_at(word, -1);
        assert(word.take(0) =~= Seq::<char>::empty());
        assert(words_of(word.take(0)) == Seq::<Seq<char>>::empty());
        assert(word.skip(0) =~= word);
        assert(words_of(word) =~= seq![word]);
    }
}

/// White space keeps the words before it and behind it apart.
pub proof fn lemma_words_of_two(a: Seq<char>, space: char, b: Seq<char>)
    requires
        is_space(space),
    ensures
        words_of(a + seq![space] + b) == words_of(a) + words_of(b),
    decreases b.len(),
{
    let s = a + seq![space] + b;
    if b.len() == 0 {
        assert(s.last() == space);
        assert(s.drop_last() =~= a);
        assert(words_of(b) == Seq::<Seq<char>>::empty());
        assert(words_of(a) + Seq::<Seq<char>>::empty() =~= words_of(a));
    } else if is_space(b.last()) {
        assert(s.last() == b.last());
        assert(s.drop_last() =~= a + seq![space] + b.drop_last());
        lemma_words_of_two(a, space, b.drop_last());
    } else {
        assert(s.last() == b.last());
        lemma_last_space_is_last(b);
        let k = last_space(b);
        let m = a.len() + 1 + k;
        assert forall|j: int| m < j < s.len() implies !is_space(#[trigger] s[j]) by {
            assert(s[j] == b[j - a.len() - 1]);
        }
        if k >= 0 {
            assert(s[m] == b[k]);
        } else {
            assert(s[m] == space);
        }
        lemma_last_space_at(s, m);
        assert(s.skip(m + 1) =~= b.skip(k + 1));
        if k >= 0 {
            assert(s.take(m + 1) =~= a + seq![space] + b.take(k + 1));
            lemma_words_of_two(a, space, b.take(k + 1));
            assert(words_of(s) =~= words_of(a) + words_of(b));
        } else {
            assert(s.take(m + 1).last() == space);
            assert(s.take(m + 1).drop_last() =~= a);
            assert(b.take(0) =~= Seq::<char>::empty());
            assert(words_of(b.take(0)) == Seq::<Seq<char>>::empty());
            assert(words_of(s.take(m + 1)) == words_of(a));
            assert(words_of(s) == words_of(a).push(s.skip(m + 1)));
            assert(words_of(b) == Seq::<Seq<char>>::empty().push(b.skip(0)));
            assert(words_of(s) =~= words_of(a) + words_of(b));
        }
    }
}

/// Trimming takes off white space at both ends, and all of it: what is left has none there.
pub proof fn lemma_trimmed(s: Seq<char>)
    ensures
        exists|i: int, j: int|
            0 <= i <= j <= s.len() && trimmed(s) == #[trigger] s.subrange(i, j) && (forall|k: int|
                0 <= k < i || j <= k < s.len() ==> is_space(#[trigger] s[k])),
        trimmed(s).len() > 0 ==> !is_space(trimmed(s)[0]) && !is_space(trimmed(s).last()),
{
    let t = trimmed_start(s);
    lemma_trimmed_start(s);
    lemma_trimmed_end(t);
    let i = s.len() - t.len();
    let j = i + trimmed(s).len();
    assert(trimmed(s) =~= s.subrange(i, j));
    assert forall|k: int| 0 <= k < i || j <= k < s.len() implies is_space(#[trigger] s[k]) by {
        if k >= i {
            assert(t[k - i] == s[k]);
        }
    }
    if trimmed(s).len() > 0 {
        assert(trimmed(s)[0] == t[0]);
    }
}

proof fn lemma_trimmed_start(s: Seq<char>)
    ensures
        trimmed_start(s).len() <= s.len(),
        trimmed_start(s) == s.skip(s.len() - trimmed_start(s).len()),
        forall|k: int| 0 <= k < s.len() - trimmed_start(s).len() ==> is_space(#[trigger] s[k]),
        trimmed_start(s).len() > 0 ==> !is_space(trimmed_start(s)[0]),
    decreases s.len(),
{
    if s.len() > 0 && is_space(s[0]) {
        let t = s.skip(1);
        lemma_trimmed_start(t);
        assert(trimmed_start(s) =~= s.skip(s.len() - trimmed_start(s).len()));
        assert forall|k: int| 0 <= k < s.len() - trimmed_start(s).len() implies is_space(
            #[trigger] s[k],
        ) by {
            if k > 0 {
                assert(t[k - 1] == s[k]);
            }
        }
    } else {
        assert(s.skip(0) =~= s);
    }
}

proof fn lemma_trimmed_end(s: Seq<char>)
    ensures
        trimmed_end(s).len() <= s.len(),
        trimmed_end(s) == s.take(trimmed_end(s).len() as int),
        forall|k: int| trimmed_end(s).len() <= k < s.len() ==> is_space(#[trigger] s[k]),
        trimmed_end(s).len() > 0 ==> !is_space(trimmed_end(s).last()),
    decreases s.len(),
{
    if s.len() > 0 && is_space(s.last()) {
        let t = s.drop_last();
        lemma_trimmed_end(t);
        assert(trimmed_end(s) =~= s.take(trimmed_end(s).len() as int));
        assert forall|k: int| trimmed_end(s).len() <= k < s.len() implies is_space(
            #[trigger] s[k],
        ) by {
            if k < t.len() {
                assert(t[k] == s[k]);
            }
        }
    } else {
        assert(s.take(s.len() as int) =~= s);
    }
}

/// Joining texts puts the separator between them and nowhere else: two joined lists, with
/// the separator between them, are the joined list of both.
pub proof fn lemma_joined(a: Seq<Seq<char>>, b: Seq<Seq<char>>, sep: Seq<char>, one: Seq<char>)
    ensures
        joined(seq![one], sep) == one,
        joined(Seq::empty(), sep) == Seq::<char>::empty(),
        a.len() > 0 && b.len() > 0 ==> joined(a + b, sep) == joined(a, sep) + sep + joined(b, sep),
    decreases b.len(),
{
    if a.len() > 0 && b.len() > 0 {
        assert((a + b).last() == b.last());
        assert((a + b).drop_last() =~= a + b.drop_last());
        if b.len() == 1 {
            assert(a + b.drop_last() =~= a);
        } else {
            lemma_joined(a, b.drop_last(), sep, one);
            assert(joined(a, sep) + sep + joined(b.drop_last(), sep) + sep + b.last() =~= joined(
                a,
                sep,
            ) + sep + (joined(b.drop_last(), sep) + sep + b.last()));
        }
    }
}

/// The value of a hexadecimal digit that numbers are written with.
pub open spec fn hex_digit(c: char) -> int {
    if '0' <= c && c <= '9' {
        c as int - '0' as int
    } else if 'a' <= c && c <= 'f' {
        c as int - 'a' as int + 10
    } else {
        -1
    }
}

/// Hexadecimal digits read as a number, the first digit counting most.
pub open spec fn hex_number(s: Seq<char>) -> int
    decreases s.len(),
{
    if s.len() == 0 {
        0
    } else {
        16 * hex_number(s.drop_last()) + hex_digit(s.last())
    }
}

/// A number in hexadecimal has the digits that were asked for, in lower case, and reads as
/// that number where they suffice.
pub proof fn lemma_hex(n: nat, width: nat)
    ensures
        hex(n, width).len() == width,
        forall|i: int| 0 <= i < width ==> 0 <= hex_digit(#[trigger] hex(n, width)[i]) < 16,
        n < vstd::arithmetic::power::pow(16, width) ==> hex_number(hex(n, width)) == n,
    decreases width,
{
    let s = hex(n, width);
    if width > 0 {
        let front = hex(n / 16, (width - 1) as nat);
        lemma_hex(n / 16, (width - 1) as nat);
        assert(s.drop_last() =~= front);
        assert forall|i: int| 0 <= i < width implies 0 <= hex_digit(#[trigger] s[i]) < 16 by {
            if i < front.len() {
                assert(s[i] == front[i]);
            }
        }
        vstd::arithmetic::power::lemma_pow_positive(16, (width - 1) as nat);
        assert(vstd::arithmetic::power::pow(16, width) == 16 * vstd::arithmetic::power::pow(
            16,
            (width - 1) as nat,
        )) by {
            reveal(vstd::arithmetic::power::pow);
        }
    } else {
        assert(vstd::arithmetic::power::pow(16, 0) == 1) by {
            reveal(vstd::arithmetic::power::pow);
        }
    }
}

/// Where two texts differ first decides which comes first; a text comes before what it
/// begins.
pub proof fn lemma_text_order_is_alphabetical(a: Seq<char>, b: Seq<char>, k: int)
    requires
        0 <= k <= a.len(),
        k <= b.len(),
        forall|j: int| 0 <= j < k ==> a[j] == b[j],
    ensures
        k < a.len() && k < b.len() && a[k] < b[k] ==> text_order(a, b) < 0,
        k == a.len() && k < b.len() ==> text_order(a, b) < 0,
    decreases k,
{
    if k > 0 {
        let (x, y) = (a.skip(1), b.skip(1));
        assert(a[0] == b[0]);
        assert forall|j: int| 0 <= j < k - 1 implies x[j] == y[j] by {
            assert(a[j + 1] == b[j + 1]);
        }
        lemma_text_order_is_alphabetical(x, y, k - 1);
    }
}

// ---------------------------------------------------------------------------
// Laws of numbers and of parts
// ---------------------------------------------------------------------------

/// A text of digits is worth what its places are worth: what stands in front counts ten
/// times as much for each place behind it.
pub proof fn lemma_places(front: Seq<char>, last: char)
    ensures
        is_digit(last) ==> dec_value(front.push(last)) == 10 * dec_value(front) + (last as int
            - '0' as int),
        dec_value(Seq::<char>::empty()) == 0,
{
    assert(front.push(last).drop_last() =~= front);
}

/// A number is read from digits alone, with or without a `+` in front, and only up to the
/// largest that is allowed.
pub proof fn lemma_reading_a_number(s: Seq<char>, max: nat)
    ensures
        all_digits(s) ==> parsed(s, max) == (if dec_value(s) <= max {
            Some(dec_value(s))
        } else {
            None
        }),
        all_digits(s) ==> parsed(seq!['+'] + s, max) == parsed(s, max),
        parsed(s, max) is Some ==> s.len() > 0 && parsed(s, max)->Some_0 <= max,
        forall|i: int|
            0 < i < s.len() && !is_digit(#[trigger] s[i]) ==> parsed(s, max) is None,
        s.len() > 0 && s[0] != '+' && !is_digit(s[0]) ==> parsed(s, max) is None,
        parsed(Seq::<char>::empty(), max) is None,
{
    assert((seq!['+'] + s).skip(1) =~= s);
    if all_digits(s) {
        assert(is_digit(s[0]));
    }
    assert forall|i: int| 0 < i < s.len() && !is_digit(#[trigger] s[i]) implies parsed(s, max)
        is None by {
        if s[0] == '+' {
            assert(s.skip(1)[i - 1] == s[i]);
        }
    }
    if s.len() > 0 && !is_digit(s[0]) {
        assert(!all_digits(s));
    }
}

/// A signed number is read back from its text, for every number that fits.
pub proof fn lemma_signed_round_trip(n: int)
    requires
        -2147483648 <= n <= 2147483647,
    ensures
        parsed_i32(dec_signed(n)) == Some(n),
{
    if n < 0 {
        let t = dec_signed(n);
        lemma_dec_round_trip((-n) as nat);
        assert(t.skip(1) =~= dec((-n) as nat));
        assert(t[0] == '-');
    } else {
        lemma_dec_round_trip(n as nat);
        lemma_parse_decimal(n as nat, 2147483647);
        assert(is_digit(dec(n as nat)[0]));
    }
}

/// Padding puts zeros in front: the text has the width, is worth the same, and is the
/// plain one where that is wide enough.
pub proof fn lemma_padded(n: nat, width: nat)
    ensures
        dec_padded(n, width).len() >= width,
        dec(n).len() >= width ==> dec_padded(n, width) == dec(n),
        dec(n).len() < width ==> dec_padded(n, width).len() == width,
        dec_padded(n, width).len() >= dec(n).len(),
        dec_padded(n, width).skip(dec_padded(n, width).len() - dec(n).len()) == dec(n),
        forall|i: int|
            0 <= i < dec_padded(n, width).len() - dec(n).len() ==> #[trigger] dec_padded(
                n,
                width,
            )[i] == '0',
{
    assert(dec_padded(n, width).skip(dec_padded(n, width).len() - dec(n).len()) =~= dec(n));
}

/// Two numbers have two texts.
pub proof fn lemma_numbers_have_their_own_text(a: nat, b: nat)
    ensures
        dec(a) == dec(b) ==> a == b,
{
    lemma_dec_round_trip(a);
    lemma_dec_round_trip(b);
}

/// A text is split at the first of a character: the parts make it up again, the front has
/// none of it, and there is no split where it does not occur.
pub proof fn lemma_split_once(s: Seq<char>, c: char)
    ensures
        match split_once_on(s, c) {
            Some((a, b)) => a + seq![c] + b == s && !a.contains(c),
            None => !s.contains(c),
        },
{
    lemma_first_index_is_first(s, c);
    match split_once_on(s, c) {
        Some((a, b)) => {
            assert(a + seq![c] + b =~= s);
        },
        None => {},
    }
}

/// A text is split at the last of a character: the parts make it up again, the back has
/// none of it, and there is no split where it does not occur.
pub proof fn lemma_rsplit_once(s: Seq<char>, c: char)
    ensures
        match rsplit_once_on(s, c) {
            Some((a, b)) => a + seq![c] + b == s && !b.contains(c),
            None => !s.contains(c),
        },
{
    lemma_last_index_is_last(s, c);
    match rsplit_once_on(s, c) {
        Some((a, b)) => {
            assert(a + seq![c] + b =~= s);
        },
        None => {},
    }
}

proof fn lemma_last_index_is_last(s: Seq<char>, c: char)
    ensures
        -1 <= last_index(s, c) < s.len() || s.len() == 0 && last_index(s, c) == -1,
        forall|j: int| last_index(s, c) < j < s.len() ==> s[j] != c,
        last_index(s, c) >= 0 ==> s[last_index(s, c)] == c,
    decreases s.len(),
{
    if s.len() > 0 && s.last() != c {
        let t = s.drop_last();
        lemma_last_index_is_last(t, c);
        assert forall|j: int| last_index(s, c) < j < s.len() implies s[j] != c by {
            if j < s.len() - 1 {
                assert(t[j] == s[j]);
            }
        }
    }
}

/// A text is split at the first place of a pattern: the parts make it up again, no place
/// before that one has the pattern, and there is no split where it does not occur.
pub proof fn lemma_split_at_pattern(s: Seq<char>, pat: Seq<char>)
    ensures
        match split_once_at(s, pat) {
            Some((a, b)) => a + pat + b == s && (forall|i: int|
                0 <= i < a.len() ==> !#[trigger] occurs_at(s, pat, i)),
            None => !holds(s, pat),
        },
{
    lemma_first_at(s, pat, 0);
    match split_once_at(s, pat) {
        Some((a, b)) => {
            assert(a + pat + b =~= s);
        },
        None => {},
    }
}

proof fn lemma_first_at(s: Seq<char>, pat: Seq<char>, from: int)
    requires
        0 <= from,
    ensures
        match first_at(s, pat, from) {
            Some(i) => from <= i && occurs_at(s, pat, i) && (forall|j: int|
                from <= j < i ==> !#[trigger] occurs_at(s, pat, j)),
            None => forall|j: int| from <= j ==> !#[trigger] occurs_at(s, pat, j),
        },
    decreases s.len() + 1 - from,
{
    if from <= s.len() && !occurs_at(s, pat, from) {
        lemma_first_at(s, pat, from + 1);
    }
}

/// A text is split at the last place of a pattern: the parts make it up again, no place
/// behind that one has the pattern, and there is no split where it does not occur.
pub proof fn lemma_rsplit_at_pattern(s: Seq<char>, pat: Seq<char>)
    ensures
        match rsplit_once_at(s, pat) {
            Some((a, b)) => a + pat + b == s && (forall|i: int|
                a.len() < i ==> !#[trigger] occurs_at(s, pat, i)),
            None => !holds(s, pat),
        },
{
    lemma_last_at(s, pat, s.len() as int);
    match rsplit_once_at(s, pat) {
        Some((a, b)) => {
            assert(a + pat + b =~= s);
        },
        None => {},
    }
}

proof fn lemma_last_at(s: Seq<char>, pat: Seq<char>, to: int)
    ensures
        match last_at(s, pat, to) {
            Some(i) => i <= to && occurs_at(s, pat, i) && (forall|j: int|
                i < j <= to ==> !#[trigger] occurs_at(s, pat, j)),
            None => forall|j: int| j <= to ==> !#[trigger] occurs_at(s, pat, j),
        },
    decreases to + 1,
{
    if to >= 0 && !occurs_at(s, pat, to) {
        lemma_last_at(s, pat, to - 1);
    }
}

/// A text begins and ends with its parts, and holds what stands between.
pub proof fn lemma_parts_occur(a: Seq<char>, b: Seq<char>, c: Seq<char>)
    ensures
        begins(a + b + c, a),
        ends(a + b + c, c),
        holds(a + b + c, b),
        begins(a, b) <==> exists|rest: Seq<char>| a == #[trigger] (b + rest),
        ends(a, b) <==> exists|rest: Seq<char>| a == #[trigger] (rest + b),
{
    let s = a + b + c;
    assert(s.subrange(0, a.len() as int) =~= a);
    assert(s.subrange(s.len() - c.len(), s.len() as int) =~= c);
    assert(s.subrange(a.len() as int, (a.len() + b.len()) as int) =~= b);
    assert(occurs_at(s, b, a.len() as int));
    if begins(a, b) {
        assert(a =~= b + a.skip(b.len() as int)) by {
            assert(a.subrange(0, b.len() as int) == b);
        }
    }
    if ends(a, b) {
        assert(a =~= a.take(a.len() - b.len()) + b) by {
            assert(a.subrange(a.len() - b.len(), a.len() as int) == b);
        }
    }
    if exists|rest: Seq<char>| a == #[trigger] (b + rest) {
        let rest = choose|rest: Seq<char>| a == #[trigger] (b + rest);
        assert(a.subrange(0, b.len() as int) =~= b);
    }
    if exists|rest: Seq<char>| a == #[trigger] (rest + b) {
        let rest = choose|rest: Seq<char>| a == #[trigger] (rest + b);
        assert(a.subrange(a.len() - b.len(), a.len() as int) =~= b);
    }
}

/// The characters that are white space, by their numbers: twenty-five of them.
pub proof fn lemma_spaces(c: char)
    ensures
        is_space(c) <==> {
            let n = c as u32;
            ||| n == 9 || n == 10 || n == 11 || n == 12 || n == 13
            ||| n == 32 || n == 133 || n == 160 || n == 5760
            ||| n == 8192 || n == 8193 || n == 8194 || n == 8195 || n == 8196 || n == 8197
            ||| n == 8198 || n == 8199 || n == 8200 || n == 8201 || n == 8202
            ||| n == 8232 || n == 8233 || n == 8239 || n == 8287 || n == 12288
        },
{
}

/// A number has no zeros in front: below ten it is one digit, and else the first is not
/// zero.
pub proof fn lemma_no_zeros_in_front(n: nat)
    ensures
        n < 10 ==> dec(n) == seq![digit_char(n as int)] && dec(n)[0] as int == '0' as int + n,
        n >= 10 ==> dec(n).len() >= 2 && dec(n)[0] != '0',
    decreases n,
{
    if n >= 10 {
        lemma_no_zeros_in_front(n / 10);
        assert(dec(n)[0] == dec(n / 10)[0]);
        if n / 10 < 10 {
            assert(dec(n / 10)[0] as int == '0' as int + n / 10);
        }
    }
}

/// Texts are seen one by one, each as it is.
pub proof fn lemma_views(v: Seq<String>, s: Option<&str>, t: Option<String>)
    ensures
        views(v).len() == v.len(),
        forall|i: int| 0 <= i < v.len() ==> #[trigger] views(v)[i] == v[i]@,
        opt_view(s) is Some <==> s is Some,
        s matches Some(x) ==> opt_view(s) == Some(x@),
        opt_string(t) is Some <==> t is Some,
        t matches Some(x) ==> opt_string(t) == Some(x@),
{
}

/// What a text is put together from stands in it.
pub proof fn lemma_held(before: Seq<char>, s: Seq<char>, after: Seq<char>)
    ensures
        holds(before + s + after, s),
{
    let whole = before + s + after;
    let n = before.len() as int;
    assert(whole.subrange(n, n + s.len()) =~= s);
    assert(occurs_at(whole, s, n));
}

} // verus!
