//! Stamps: small text files of `key=value` lines.
use vstd::prelude::*;

use crate::text;

verus! {

/// What came of reading a text file.
#[derive(Debug, PartialEq, Eq)]
pub enum FileText {
    Found(String),
    /// There is no such file.
    Missing,
    /// It could not be read, for this reason.
    Failed(String),
}

/// The fields that lines hold: each line is split at its first `=`, a line without one
/// says nothing, and of several lines with the same key the last counts.
pub open spec fn fields_of_lines(lines: Seq<Seq<char>>) -> Map<Seq<char>, Seq<char>>
    decreases lines.len(),
{
    if lines.len() == 0 {
        Map::empty()
    } else {
        let rest = fields_of_lines(lines.drop_last());
        match text::split_once_on(lines.last(), '=') {
            Some((key, value)) => rest.insert(key, value),
            None => rest,
        }
    }
}

/// The fields of a stamp.
pub open spec fn fields_of(stamp: Seq<char>) -> Map<Seq<char>, Seq<char>> {
    fields_of_lines(text::lines_of(stamp))
}

/// The fields that a list of pairs holds, the last of each key.
pub open spec fn pairs_map(pairs: Seq<(Seq<char>, Seq<char>)>) -> Map<Seq<char>, Seq<char>>
    decreases pairs.len(),
{
    if pairs.len() == 0 {
        Map::empty()
    } else {
        pairs_map(pairs.drop_last()).insert(pairs.last().0, pairs.last().1)
    }
}

/// The views of pairs of strings.
pub open spec fn pair_views(v: Seq<(String, String)>) -> Seq<(Seq<char>, Seq<char>)> {
    Seq::new(v.len(), |i: int| (v[i].0@, v[i].1@))
}

/// The fields of a stamp.
pub struct Fields {
    entries: Vec<(String, String)>,
}

impl Fields {
    /// The value of each key.
    pub closed spec fn map(self) -> Map<Seq<char>, Seq<char>> {
        pairs_map(pair_views(self.entries@))
    }

    /// The value of a key.
    pub fn get(&self, key: &str) -> (r: Option<&str>)
        ensures
            match r {
                Some(value) => self.map().dom().contains(key@) && self.map()[key@] == value@,
                None => !self.map().dom().contains(key@),
            },
    {
        let ghost all = pair_views(self.entries@);
        let mut i: usize = self.entries.len();
        assert(all.take(i as int) =~= all);
        while i > 0
            invariant
                i <= self.entries@.len(),
                all == pair_views(self.entries@),
                self.map().dom().contains(key@) == pairs_map(all.take(i as int)).dom().contains(
                    key@,
                ),
                self.map().dom().contains(key@) ==> self.map()[key@] == pairs_map(
                    all.take(i as int),
                )[key@],
            decreases i,
        {
            proof {
                let t = all.take(i as int);
                assert(t.drop_last() =~= all.take(i - 1));
                assert(t.last() == (self.entries@[i - 1].0@, self.entries@[i - 1].1@));
            }
            if text::same(&self.entries[i - 1].0, key) {
                return Some(self.entries[i - 1].1.as_str());
            }
            i = i - 1;
        }
        None
    }
}

/// Reads the fields of a stamp.
pub fn parse_shares_stamp(stamp: &str) -> (r: Fields)
    ensures
        r.map() == fields_of(stamp@),
{
    let lines: Vec<String> = text::lines(stamp);
    let ghost all = text::lines_of(stamp@);
    let mut entries: Vec<(String, String)> = Vec::new();
    let mut i: usize = 0;
    assert(pair_views(entries@) =~= Seq::<(Seq<char>, Seq<char>)>::empty());
    while i < lines.len()
        invariant
            i <= lines@.len(),
            text::views(lines@) == all,
            pairs_map(pair_views(entries@)) == fields_of_lines(all.take(i as int)),
        decreases lines@.len() - i,
    {
        let ghost before = entries@;
        proof {
            let next = all.take(i + 1);
            assert(next.drop_last() =~= all.take(i as int));
            assert(next.last() == lines@[i as int]@);
        }
        if let Some((key, value)) = text::split_once(lines[i].as_str(), '=') {
            entries.push((key.to_owned(), value.to_owned()));
            proof {
                assert(pair_views(entries@).drop_last() =~= pair_views(before));
                assert(pair_views(entries@).last() == (key@, value@));
            }
        }
        i = i + 1;
    }
    assert(all.take(i as int) =~= all);
    Fields { entries }
}

/// The text of a stamp with the given fields, one `key=value` line for each.
pub open spec fn stamp_text(pairs: Seq<(Seq<char>, Seq<char>)>) -> Seq<char>
    decreases pairs.len(),
{
    if pairs.len() == 0 {
        Seq::empty()
    } else {
        pairs[0].0 + seq!['='] + pairs[0].1 + seq!['\n'] + stamp_text(pairs.skip(1))
    }
}

/// Whether a field keeps to its line: neither part has a line end, the key has no `=`,
/// and the value does not end in a carriage return.
pub open spec fn is_line_field(key: Seq<char>, value: Seq<char>) -> bool {
    &&& !key.contains('=') && !key.contains('\n')
    &&& !value.contains('\n')
    &&& value.len() == 0 || value.last() != '\r'
}

/// The lines of a stamp's text are its fields, one line for each.
pub proof fn lemma_lines_of_stamp(pairs: Seq<(Seq<char>, Seq<char>)>)
    requires
        forall|i: int| 0 <= i < pairs.len() ==> is_line_field(#[trigger] pairs[i].0, pairs[i].1),
    ensures
        text::lines_of(stamp_text(pairs)) == Seq::new(
            pairs.len(),
            |i: int| pairs[i].0 + seq!['='] + pairs[i].1,
        ),
    decreases pairs.len(),
{
    let lines = Seq::new(pairs.len(), |i: int| pairs[i].0 + seq!['='] + pairs[i].1);
    if pairs.len() == 0 {
        text::lemma_lines_of_empty();
        assert(lines =~= Seq::<Seq<char>>::empty());
    } else {
        let rest = pairs.skip(1);
        assert forall|i: int| 0 <= i < rest.len() implies is_line_field(
            #[trigger] rest[i].0,
            rest[i].1,
        ) by {
            assert(rest[i] == pairs[i + 1]);
        }
        lemma_lines_of_stamp(rest);
        assert(is_line_field(pairs[0].0, pairs[0].1));
        let line = pairs[0].0 + seq!['='] + pairs[0].1;
        assert(!line.contains('\n')) by {
            if line.contains('\n') {
                let j = choose|j: int| 0 <= j < line.len() && line[j] == '\n';
                if j < pairs[0].0.len() {
                    assert(pairs[0].0[j] == '\n');
                } else if j > pairs[0].0.len() {
                    assert(pairs[0].1[j - pairs[0].0.len() - 1] == '\n');
                }
            }
        }
        assert(line.last() != '\r') by {
            if pairs[0].1.len() > 0 {
                assert(line.last() == pairs[0].1.last());
            } else {
                assert(line.last() == '=');
            }
        }
        text::lemma_lines_cons(line, stamp_text(rest));
        assert(stamp_text(pairs) == line + seq!['\n'] + stamp_text(rest));
        assert(lines =~= seq![line] + text::lines_of(stamp_text(rest)));
    }
}

proof fn lemma_fields_of_pair_lines(pairs: Seq<(Seq<char>, Seq<char>)>)
    requires
        forall|i: int| 0 <= i < pairs.len() ==> is_line_field(#[trigger] pairs[i].0, pairs[i].1),
    ensures
        fields_of_lines(
            Seq::new(pairs.len(), |i: int| pairs[i].0 + seq!['='] + pairs[i].1),
        ) == pairs_map(pairs),
    decreases pairs.len(),
{
    let lines = Seq::new(pairs.len(), |i: int| pairs[i].0 + seq!['='] + pairs[i].1);
    if pairs.len() > 0 {
        let rest = pairs.drop_last();
        assert forall|i: int| 0 <= i < rest.len() implies is_line_field(
            #[trigger] rest[i].0,
            rest[i].1,
        ) by {
            assert(rest[i] == pairs[i]);
        }
        lemma_fields_of_pair_lines(rest);
        assert(lines.drop_last() =~= Seq::new(
            rest.len(),
            |i: int| rest[i].0 + seq!['='] + rest[i].1,
        ));
        let last = pairs[pairs.len() - 1];
        assert(is_line_field(last.0, last.1));
        text::lemma_split_once_pair(last.0, '=', last.1);
    }
}

/// Reading a stamp gives back the fields that were written, as long as each keeps to its
/// line.
pub proof fn lemma_stamp_round_trip(pairs: Seq<(Seq<char>, Seq<char>)>)
    requires
        forall|i: int| 0 <= i < pairs.len() ==> is_line_field(#[trigger] pairs[i].0, pairs[i].1),
    ensures
        fields_of(stamp_text(pairs)) == pairs_map(pairs),
{
    lemma_lines_of_stamp(pairs);
    lemma_fields_of_pair_lines(pairs);
}

/// Where no key occurs twice, each pair's value is found under its key.
pub proof fn lemma_pairs_map_lookup(pairs: Seq<(Seq<char>, Seq<char>)>, at: int)
    requires
        0 <= at < pairs.len(),
        forall|i: int, j: int| 0 <= i < j < pairs.len() ==> pairs[i].0 != pairs[j].0,
    ensures
        pairs_map(pairs).dom().contains(pairs[at].0),
        pairs_map(pairs)[pairs[at].0] == pairs[at].1,
    decreases pairs.len(),
{
    if at < pairs.len() - 1 {
        let rest = pairs.drop_last();
        assert forall|i: int, j: int| 0 <= i < j < rest.len() implies rest[i].0 != rest[j].0 by {
            assert(rest[i] == pairs[i] && rest[j] == pairs[j]);
        }
        lemma_pairs_map_lookup(rest, at);
        assert(rest[at] == pairs[at]);
        assert(pairs[at].0 != pairs[pairs.len() - 1].0);
    }
}

/// The fields of pairs have the keys of the pairs and no others.
pub proof fn lemma_pairs_map_keys(pairs: Seq<(Seq<char>, Seq<char>)>, key: Seq<char>)
    ensures
        pairs_map(pairs).dom().contains(key) <==> exists|i: int|
            0 <= i < pairs.len() && (#[trigger] pairs[i]).0 == key,
    decreases pairs.len(),
{
    if pairs.len() > 0 {
        let rest = pairs.drop_last();
        lemma_pairs_map_keys(rest, key);
        if exists|i: int| 0 <= i < rest.len() && (#[trigger] rest[i]).0 == key {
            let i = choose|i: int| 0 <= i < rest.len() && (#[trigger] rest[i]).0 == key;
            assert(pairs[i].0 == key);
        }
        if pairs.last().0 == key {
            assert(pairs[pairs.len() - 1].0 == key);
        }
        if exists|i: int| 0 <= i < pairs.len() && (#[trigger] pairs[i]).0 == key {
            let i = choose|i: int| 0 <= i < pairs.len() && (#[trigger] pairs[i]).0 == key;
            if i < rest.len() {
                assert(rest[i].0 == key);
            }
        }
    }
}

/// Writes a stamp.
pub fn write_stamp(pairs: &Vec<(&str, String)>) -> (s: String)
    ensures
        s@ == stamp_text(borrowed_pairs(pairs@)),
{
    let ghost all = borrowed_pairs(pairs@);
    let mut s: String = String::new();
    let mut i: usize = 0;
    assert(all.skip(0) =~= all);
    assert(Seq::<char>::empty() + stamp_text(all) =~= stamp_text(all));
    while i < pairs.len()
        invariant
            i <= pairs@.len(),
            all == borrowed_pairs(pairs@),
            s@ + stamp_text(all.skip(i as int)) == stamp_text(all),
        decreases pairs@.len() - i,
    {
        let ghost before = s@;
        let ghost rest = all.skip(i as int);
        s.append(pairs[i].0);
        s.push('=');
        s.append(pairs[i].1.as_str());
        s.push('\n');
        proof {
            assert(rest[0] == (pairs@[i as int].0@, pairs@[i as int].1@));
            assert(rest.skip(1) =~= all.skip(i + 1));
            assert(s@ + stamp_text(all.skip(i + 1)) =~= before + stamp_text(rest));
        }
        i = i + 1;
    }
    assert(all.skip(i as int) =~= Seq::<(Seq<char>, Seq<char>)>::empty());
    assert(s@ + Seq::<char>::empty() =~= s@);
    s
}

/// The views of pairs of a borrowed key and a value.
pub open spec fn borrowed_pairs(v: Seq<(&str, String)>) -> Seq<(Seq<char>, Seq<char>)> {
    Seq::new(v.len(), |i: int| (v[i].0@, v[i].1@))
}

/// The fields of lines are those of the lines one after the other: each line gives the
/// value behind its first equals sign, a later one for a key hides an earlier one, and a
/// line without that sign gives nothing.
pub proof fn lemma_fields_of_lines(
    lines: Seq<Seq<char>>,
    key: Seq<char>,
    value: Seq<char>,
    plain: Seq<char>,
)
    requires
        !key.contains('='),
        !plain.contains('='),
    ensures
        fields_of_lines(lines.push(key + seq!['='] + value)) == fields_of_lines(lines).insert(
            key,
            value,
        ),
        fields_of_lines(lines.push(plain)) == fields_of_lines(lines),
        fields_of_lines(Seq::empty()) == Map::<Seq<char>, Seq<char>>::empty(),
{
    let line = key + seq!['='] + value;
    assert(lines.push(line).drop_last() =~= lines);
    assert(lines.push(plain).drop_last() =~= lines);
    text::lemma_split_once_pair(key, '=', value);
    text::lemma_split_once(plain, '=');
    if let Some((a, b)) = text::split_once_on(plain, '=') {
        assert(plain[a.len() as int] == '=');
        assert(plain.contains('='));
    }
}

/// Fields are those of the pairs, where the last pair with a key counts.
pub proof fn lemma_last_pair_counts(
    pairs: Seq<(Seq<char>, Seq<char>)>,
    key: Seq<char>,
    value: Seq<char>,
)
    ensures
        pairs_map(pairs.push((key, value))) == pairs_map(pairs).insert(key, value),
        pairs_map(Seq::empty()) == Map::<Seq<char>, Seq<char>>::empty(),
{
    assert(pairs.push((key, value)).drop_last() =~= pairs);
}

/// A stamp has a line for each pair: the key, an equals sign and the value.
pub proof fn lemma_stamp_text(
    a: Seq<(Seq<char>, Seq<char>)>,
    b: Seq<(Seq<char>, Seq<char>)>,
    key: Seq<char>,
    value: Seq<char>,
)
    ensures
        stamp_text(a + b) == stamp_text(a) + stamp_text(b),
        stamp_text(seq![(key, value)]) == key + seq!['='] + value + seq!['\n'],
        stamp_text(Seq::empty()) == Seq::<char>::empty(),
    decreases a.len(),
{
    reveal_with_fuel(stamp_text, 2);
    let one = seq![(key, value)];
    assert(one.skip(1) =~= Seq::<(Seq<char>, Seq<char>)>::empty());
    assert(stamp_text(one) =~= key + seq!['='] + value + seq!['\n']);
    if a.len() == 0 {
        assert(a + b =~= b);
        assert(stamp_text(a) + stamp_text(b) =~= stamp_text(b));
    } else {
        lemma_stamp_text(a.skip(1), b, key, value);
        assert((a + b).skip(1) =~= a.skip(1) + b);
        assert((a + b)[0] == a[0]);
        assert(stamp_text(a + b) =~= stamp_text(a) + stamp_text(b));
    }
}

/// Pairs are seen one by one, the key and the value of each as they are.
pub proof fn lemma_pair_views(v: Seq<(String, String)>, b: Seq<(&str, String)>)
    ensures
        pair_views(v).len() == v.len(),
        forall|i: int| 0 <= i < v.len() ==> #[trigger] pair_views(v)[i] == (v[i].0@, v[i].1@),
        borrowed_pairs(b).len() == b.len(),
        forall|i: int| 0 <= i < b.len() ==> #[trigger] borrowed_pairs(b)[i] == (b[i].0@, b[i].1@),
{
}

} // verus!
