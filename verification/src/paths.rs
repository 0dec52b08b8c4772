//! Paths, as text.
//!
//! A path is compared and taken apart by its components, as the operating system
//! reads it: separators may be doubled, and `.` inside a path says nothing.
use vstd::prelude::*;

use crate::text;

verus! {

/// Whether a path segment counts as a component: an empty one never does, and `.`
/// only at the start of a relative path.
pub open spec fn segment_counts(segment: Seq<char>, first: bool) -> bool {
    segment.len() > 0 && (segment != seq!['.'] || first)
}

/// The components among path segments.
pub open spec fn counted(segments: Seq<Seq<char>>, first: bool) -> Seq<Seq<char>>
    decreases segments.len(),
{
    if segments.len() == 0 {
        Seq::empty()
    } else {
        let rest = counted(segments.skip(1), false);
        if segment_counts(segments[0], first) {
            seq![segments[0]] + rest
        } else {
            rest
        }
    }
}

/// Whether a path starts at the root.
pub open spec fn is_absolute(p: Seq<char>) -> bool {
    p.len() > 0 && p[0] == '/'
}

/// The components of a path; the root directory is the component `/`.
pub open spec fn components(p: Seq<char>) -> Seq<Seq<char>> {
    if is_absolute(p) {
        seq![seq!['/']] + counted(text::split_on(p, '/'), false)
    } else {
        counted(text::split_on(p, '/'), true)
    }
}

/// The components of a path.
pub fn components_of(p: &str) -> (r: Vec<String>)
    ensures
        text::views(r@) == components(p@),
{
    let segments: Vec<String> = text::split(p, '/');
    let absolute: bool = absolute(p);
    let mut r: Vec<String> = Vec::new();
    if absolute {
        let mut root: String = String::new();
        root.push('/');
        assert(root@ =~= seq!['/']);
        r.push(root);
        assert(text::views(r@) =~= seq![seq!['/']]);
    }
    let ghost head = text::views(r@);
    let ghost all = text::split_on(p@, '/');
    let mut i: usize = 0;
    assert(all.skip(0) =~= all);
    assert(head + counted(all, !absolute) == components(p@)) by {
        if !absolute {
            assert(head =~= Seq::<Seq<char>>::empty());
            assert(head + counted(all, true) =~= counted(all, true));
        }
    }
    while i < segments.len()
        invariant
            i <= segments@.len(),
            text::views(segments@) == all,
            text::views(r@) + counted(all.skip(i as int), i == 0 && !absolute) == components(p@),
        decreases segments@.len() - i,
    {
        let segment: &String = &segments[i];
        let ghost before = r@;
        let ghost rest = all.skip(i as int);
        assert(segment@ == all[i as int]);
        assert(rest[0] == segment@);
        assert(rest.skip(1) =~= all.skip(i + 1));
        proof {
            reveal_strlit(".");
            assert("."@ =~= seq!['.']);
        }
        if !segment.as_str().is_empty() && (!text::same(segment, ".") || (i == 0 && !absolute)) {
            r.push(segment.clone());
            assert(text::views(r@) =~= text::views(before).push(segment@));
            assert(text::views(before) + (seq![segment@] + counted(all.skip(i + 1), false)) =~= text::views(r@)
                + counted(all.skip(i + 1), false));
        }
        i = i + 1;
    }
    assert(all.skip(i as int) =~= Seq::<Seq<char>>::empty());
    assert(text::views(r@) + Seq::<Seq<char>>::empty() =~= text::views(r@));
    r
}

/// Whether a path starts at the root.
pub fn absolute(p: &str) -> (r: bool)
    ensures
        r == is_absolute(p@),
{
    p.unicode_len() > 0 && p.get_char(0) == '/'
}

/// The text of a path with the given components, in normal form.
pub open spec fn rendered(parts: Seq<Seq<char>>) -> Seq<char>
    decreases parts.len(),
{
    if parts.len() == 0 {
        Seq::empty()
    } else {
        joined(rendered(parts.drop_last()), parts.last())
    }
}

/// `name` below `base`; an absolute `name` stands for itself.
pub open spec fn joined(base: Seq<char>, name: Seq<char>) -> Seq<char> {
    if is_absolute(name) {
        name
    } else if base.len() == 0 || base.last() == '/' {
        base + name
    } else {
        base + seq!['/'] + name
    }
}

/// Appends `name` to `base`, with a separator between them where one is needed.
pub fn join(base: &str, name: &str) -> (r: String)
    ensures
        r@ == joined(base@, name@),
{
    if absolute(name) {
        return name.to_owned();
    }
    let n: usize = base.unicode_len();
    let mut r: String = base.to_owned();
    if n > 0 && base.get_char(n - 1) != '/' {
        r.push('/');
        assert(base@.push('/') =~= base@ + seq!['/']);
    }
    r.append(name);
    r
}

/// The text of the first `n` components.
fn render(parts: &Vec<String>, from: usize, to: usize) -> (r: String)
    requires
        from <= to <= parts@.len(),
    ensures
        r@ == rendered(text::views(parts@).subrange(from as int, to as int)),
{
    let ghost all = text::views(parts@);
    let mut r: String = String::new();
    let mut i: usize = from;
    assert(all.subrange(from as int, from as int) =~= Seq::<Seq<char>>::empty());
    while i < to
        invariant
            from <= i <= to <= parts@.len(),
            all == text::views(parts@),
            r@ == rendered(all.subrange(from as int, i as int)),
        decreases to - i,
    {
        let ghost next = all.subrange(from as int, i + 1);
        assert(next.drop_last() =~= all.subrange(from as int, i as int));
        assert(next.last() == parts@[i as int]@);
        r = join(&r, &parts[i]);
        i = i + 1;
    }
    r
}

/// Whether two texts name the same path.
pub fn same_path(a: &str, b: &str) -> (r: bool)
    ensures
        r == (components(a@) == components(b@)),
{
    let x: Vec<String> = components_of(a);
    let y: Vec<String> = components_of(b);
    assert(components(a@).len() == x@.len() && components(b@).len() == y@.len());
    if x.len() != y.len() {
        return false;
    }
    is_prefix(&y, &x)
}

/// Whether the first sequence begins the second.
pub open spec fn prefix(short: Seq<Seq<char>>, long: Seq<Seq<char>>) -> bool {
    short.len() <= long.len() && long.take(short.len() as int) == short
}

fn is_prefix(short: &Vec<String>, long: &Vec<String>) -> (r: bool)
    ensures
        r == prefix(text::views(short@), text::views(long@)),
        r && short@.len() == long@.len() ==> text::views(short@) == text::views(long@),
        !r ==> text::views(short@) != text::views(long@),
{
    let ghost a = text::views(short@);
    let ghost b = text::views(long@);
    if short.len() > long.len() {
        return false;
    }
    let mut i: usize = 0;
    while i < short.len()
        invariant
            i <= short@.len() <= long@.len(),
            a == text::views(short@),
            b == text::views(long@),
            forall|k: int| 0 <= k < i ==> a[k] == b[k],
        decreases short@.len() - i,
    {
        if !text::same(&short[i], &long[i]) {
            assert(a[i as int] != b[i as int]);
            assert(b.take(a.len() as int)[i as int] == b[i as int]);
            return false;
        }
        i = i + 1;
    }
    assert(b.take(a.len() as int) =~= a);
    assert(a.len() == b.len() ==> a =~= b);
    true
}

/// Whether `p` lies in `base` or is `base` itself.
pub open spec fn lies_in(p: Seq<char>, base: Seq<char>) -> bool {
    prefix(components(base), components(p))
}

/// Whether `p` lies in `base` or is `base` itself.
pub fn path_starts_with(p: &str, base: &str) -> (r: bool)
    ensures
        r == lies_in(p@, base@),
{
    is_prefix(&components_of(base), &components_of(p))
}

/// The path of `p` relative to `base`, which it must lie in.
pub open spec fn relative_to(p: Seq<char>, base: Seq<char>) -> Option<Seq<char>> {
    if lies_in(p, base) {
        Some(rendered(components(p).skip(components(base).len() as int)))
    } else {
        None
    }
}

/// The path of `p` relative to `base`, when it lies in it.
pub fn strip_prefix(p: &str, base: &str) -> (r: Option<String>)
    ensures
        match r {
            Some(s) => relative_to(p@, base@) == Some(s@),
            None => relative_to(p@, base@) is None,
        },
{
    let x: Vec<String> = components_of(p);
    let y: Vec<String> = components_of(base);
    if !is_prefix(&y, &x) {
        return None;
    }
    assert(components(p@).subrange(y@.len() as int, x@.len() as int) =~= components(p@).skip(
        y@.len() as int,
    ));
    Some(render(&x, y.len(), x.len()))
}

/// Whether a component is a name: not the root, `.` or `..`.
pub open spec fn is_name(part: Seq<char>) -> bool {
    part != seq!['/'] && part != seq!['.'] && part != seq!['.', '.']
}

fn is_name_part(part: &str) -> (r: bool)
    ensures
        r == is_name(part@),
{
    proof {
        reveal_strlit("/");
        reveal_strlit(".");
        reveal_strlit("..");
        assert("/"@ =~= seq!['/']);
        assert("."@ =~= seq!['.']);
        assert(".."@ =~= seq!['.', '.']);
    }
    !text::same(part, "/") && !text::same(part, ".") && !text::same(part, "..")
}

/// The name at the end of a path.
pub open spec fn name_of(p: Seq<char>) -> Option<Seq<char>> {
    let parts = components(p);
    if parts.len() > 0 && is_name(parts.last()) {
        Some(parts.last())
    } else {
        None
    }
}

/// The name at the end of a path.
pub fn file_name(p: &str) -> (r: Option<String>)
    ensures
        match r {
            Some(s) => name_of(p@) == Some(s@),
            None => name_of(p@) is None,
        },
{
    let parts: Vec<String> = components_of(p);
    if parts.len() == 0 {
        return None;
    }
    let last: &String = &parts[parts.len() - 1];
    assert(last@ == components(p@).last());
    if is_name_part(last) {
        Some(last.clone())
    } else {
        None
    }
}

/// The path without its last component; the root and the empty path have none.
pub open spec fn parent_of(p: Seq<char>) -> Option<Seq<char>> {
    let parts = components(p);
    if parts.len() > 0 && parts.last() != seq!['/'] {
        Some(rendered(parts.drop_last()))
    } else {
        None
    }
}

/// The path without its last component.
pub fn parent(p: &str) -> (r: Option<String>)
    ensures
        match r {
            Some(s) => parent_of(p@) == Some(s@),
            None => parent_of(p@) is None,
        },
{
    let parts: Vec<String> = components_of(p);
    if parts.len() == 0 {
        return None;
    }
    proof {
        reveal_strlit("/");
        assert("/"@ =~= seq!['/']);
        assert(parts@.last()@ == components(p@).last());
        assert(components(p@).subrange(0, parts@.len() - 1) =~= components(p@).drop_last());
    }
    if text::same(&parts[parts.len() - 1], "/") {
        None
    } else {
        Some(render(&parts, 0, parts.len() - 1))
    }
}

/// Where an instance keeps its files.
#[derive(Clone, Debug, PartialEq, Eq)]
pub struct Layout {
    pub base: String,
    pub instance: String,
    pub kernel: String,
    pub rootfs: String,
    pub instance_dir: String,
    pub snapshot_dir: String,
    pub checkpoint_dir: String,
    pub vm_initialized: String,
    pub run_dir: String,
    pub console_log: String,
}

// ---------------------------------------------------------------------------
// Laws of paths
// ---------------------------------------------------------------------------

/// Whether these can be the components of a path: each is the root in front, or a piece
/// without a separator; `.` stands only in front.
pub open spec fn are_parts(parts: Seq<Seq<char>>) -> bool {
    forall|k: int|
        0 <= k < parts.len() ==> {
            let part = #[trigger] parts[k];
            &&& part.len() > 0
            &&& part == seq!['/'] ==> k == 0
            &&& part != seq!['/'] ==> !part.contains('/')
            &&& part == seq!['.'] ==> k == 0
        }
}

proof fn lemma_counted(segments: Seq<Seq<char>>, first: bool)
    ensures
        forall|k: int|
            0 <= k < counted(segments, first).len() ==> segments.contains(
                #[trigger] counted(segments, first)[k],
            ) && counted(segments, first)[k].len() > 0 && (counted(segments, first)[k] == seq!['.']
                ==> k == 0 && first),
    decreases segments.len(),
{
    let all = counted(segments, first);
    if segments.len() > 0 {
        let rest = segments.skip(1);
        let tail = counted(rest, false);
        lemma_counted(rest, false);
        assert forall|k: int| 0 <= k < all.len() implies segments.contains(#[trigger] all[k])
            && all[k].len() > 0 && (all[k] == seq!['.'] ==> k == 0 && first) by {
            let at = if segment_counts(segments[0], first) {
                k - 1
            } else {
                k
            };
            if at >= 0 {
                assert(all[k] == tail[at]);
                let j = choose|j: int| 0 <= j < rest.len() && rest[j] == tail[at];
                assert(segments[j + 1] == tail[at]);
            } else {
                assert(all[k] == segments[0]);
            }
        }
    }
}

proof fn lemma_counted_of_one(segment: Seq<char>, first: bool)
    ensures
        counted(seq![segment], first) == (if segment_counts(segment, first) {
            seq![segment]
        } else {
            Seq::empty()
        }),
{
    let rest = seq![segment].skip(1);
    assert(rest =~= Seq::<Seq<char>>::empty());
    assert(counted(rest, false) == Seq::<Seq<char>>::empty());
    assert(seq![segment] + Seq::<Seq<char>>::empty() =~= seq![segment]);
}

proof fn lemma_counted_of_two(a: Seq<Seq<char>>, b: Seq<Seq<char>>, first: bool)
    requires
        a.len() > 0,
    ensures
        counted(a + b, first) == counted(a, first) + counted(b, false),
    decreases a.len(),
{
    assert((a + b).skip(1) =~= a.skip(1) + b);
    assert((a + b)[0] == a[0]);
    if a.len() == 1 {
        assert(a.skip(1) =~= Seq::<Seq<char>>::empty());
        assert(a.skip(1) + b =~= b);
        assert(counted(a.skip(1), false) =~= Seq::<Seq<char>>::empty());
        assert(counted(a + b, first) =~= counted(a, first) + counted(b, false));
    } else {
        lemma_counted_of_two(a.skip(1), b, false);
        assert(counted(a + b, first) =~= counted(a, first) + counted(b, false));
    }
}

/// The components of a path are pieces without separators, behind the root where the path
/// starts there.
pub proof fn lemma_components_are_parts(p: Seq<char>)
    ensures
        are_parts(components(p)),
        is_absolute(p) <==> components(p).len() > 0 && components(p)[0] == seq!['/'],
{
    let segments = text::split_on(p, '/');
    let parts = components(p);
    text::lemma_pieces_are_clean(p, '/');
    lemma_counted(segments, !is_absolute(p));
    let found = counted(segments, !is_absolute(p));
    assert forall|k: int| 0 <= k < found.len() implies !(#[trigger] found[k]).contains('/')
        && found[k] != seq!['/'] by {
        let j = choose|j: int| 0 <= j < segments.len() && segments[j] == found[k];
        assert(!segments[j].contains('/'));
        assert(seq!['/'].contains('/')) by {
            assert(seq!['/'][0] == '/');
        }
    }
    assert forall|k: int| 0 <= k < parts.len() implies ({
        let part = #[trigger] parts[k];
        &&& part.len() > 0
        &&& part == seq!['/'] ==> k == 0
        &&& part != seq!['/'] ==> !part.contains('/')
        &&& part == seq!['.'] ==> k == 0
    }) by {
        if is_absolute(p) {
            if k > 0 {
                assert(parts[k] == found[k - 1]);
            }
        } else {
            assert(parts[k] == found[k]);
        }
    }
    if !is_absolute(p) && parts.len() > 0 {
        assert(parts[0] == found[0]);
    }
}

proof fn lemma_joined_counts(base: Seq<char>, name: Seq<char>)
    requires
        base.len() > 0,
        !is_absolute(name),
    ensures
        components(joined(base, name)) == components(base) + counted(
            text::split_on(name, '/'),
            false,
        ),
{
    let whole = joined(base, name);
    let first = !is_absolute(base);
    let tail = text::split_on(name, '/');
    assert(whole[0] == base[0]);
    assert(is_absolute(whole) == is_absolute(base));
    text::lemma_split_is_nonempty(base, '/');
    if base.last() == '/' {
        let front = base.drop_last();
        let none = Seq::<char>::empty();
        assert(base =~= front + seq!['/'] + none);
        assert(whole =~= front + seq!['/'] + name);
        text::lemma_split_of_two(front, none, '/');
        text::lemma_split_of_two(front, name, '/');
        text::lemma_split_of_one(none, '/');
        text::lemma_split_is_nonempty(front, '/');
        let x = text::split_on(front, '/');
        lemma_counted_of_two(x, tail, first);
        lemma_counted_of_two(x, seq![none], first);
        lemma_counted_of_one(none, false);
        assert(counted(x, first) + Seq::<Seq<char>>::empty() =~= counted(x, first));
    } else {
        assert(whole =~= base + seq!['/'] + name);
        text::lemma_split_of_two(base, name, '/');
        lemma_counted_of_two(text::split_on(base, '/'), tail, first);
    }
    assert(components(whole) =~= components(base) + counted(tail, false));
}

/// The components of a path below another are those of both, one after the other.
pub proof fn lemma_components_of_joined(base: Seq<char>, name: Seq<char>)
    requires
        !is_absolute(name),
        components(name).len() > 0 ==> components(name)[0] != seq!['.'],
    ensures
        components(joined(base, name)) == components(base) + components(name),
{
    let segments = text::split_on(name, '/');
    text::lemma_split_is_nonempty(name, '/');
    if base.len() == 0 {
        assert(base + name =~= name);
        assert(text::split_on(base, '/') =~= seq![base]) by {
            assert(!base.contains('/'));
            text::lemma_split_of_one(base, '/');
        }
        lemma_counted_of_one(base, true);
        assert(components(base) =~= Seq::<Seq<char>>::empty());
        assert(components(base) + components(name) =~= components(name));
    } else {
        lemma_joined_counts(base, name);
        if segments[0] == seq!['.'] {
            assert(counted(segments, true)[0] == segments[0]);
        }
        assert(counted(segments, true) == counted(segments, false));
    }
}

/// A path is given by its components: the path that they are written as has them.
pub proof fn lemma_rendered(parts: Seq<Seq<char>>)
    requires
        are_parts(parts),
    ensures
        components(rendered(parts)) == parts,
        rendered(parts).len() == 0 <==> parts.len() == 0,
    decreases parts.len(),
{
    if parts.len() == 0 {
        let none = Seq::<char>::empty();
        assert(!none.contains('/'));
        text::lemma_split_of_one(none, '/');
        lemma_counted_of_one(none, true);
        assert(components(none) =~= parts);
    } else {
        let front = parts.drop_last();
        let last = parts.last();
        assert(parts[parts.len() - 1] == last);
        assert(are_parts(front)) by {
            assert forall|k: int| 0 <= k < front.len() implies ({
                let part = #[trigger] front[k];
                &&& part.len() > 0
                &&& part == seq!['/'] ==> k == 0
                &&& part != seq!['/'] ==> !part.contains('/')
                &&& part == seq!['.'] ==> k == 0
            }) by {
                assert(parts[k] == front[k]);
            }
        }
        lemma_rendered(front);
        let base = rendered(front);
        if last == seq!['/'] {
            assert(base.len() == 0);
            assert(joined(base, last) == last);
            let none = Seq::<char>::empty();
            assert(none + seq!['/'] + none =~= last);
            text::lemma_split_of_two(none, none, '/');
            text::lemma_split_of_one(none, '/');
            lemma_counted_of_two(seq![none], seq![none], false);
            lemma_counted_of_one(none, false);
            assert(components(last) =~= seq![last]);
            assert(parts =~= seq![last]);
        } else {
            assert(!is_absolute(last)) by {
                if is_absolute(last) {
                    assert(last.contains(last[0]));
                }
            }
            text::lemma_split_of_one(last, '/');
            lemma_counted_of_one(last, false);
            lemma_counted_of_one(last, true);
            if base.len() == 0 {
                assert(base + last =~= last);
                assert(components(last) =~= seq![last]);
                assert(parts =~= seq![last]);
            } else {
                lemma_joined_counts(base, last);
                assert(counted(seq![last], false) =~= seq![last]);
                assert(parts =~= front + seq![last]);
            }
        }
    }
}

proof fn lemma_tail_of_parts(parts: Seq<Seq<char>>, n: int)
    requires
        are_parts(parts),
        0 <= n <= parts.len(),
    ensures
        are_parts(parts.skip(n)),
        are_parts(parts.take(n)),
{
    let (tail, front) = (parts.skip(n), parts.take(n));
    assert forall|k: int| 0 <= k < tail.len() implies ({
        let part = #[trigger] tail[k];
        &&& part.len() > 0
        &&& part == seq!['/'] ==> k == 0
        &&& part != seq!['/'] ==> !part.contains('/')
        &&& part == seq!['.'] ==> k == 0
    }) by {
        assert(parts[k + n] == tail[k]);
    }
    assert forall|k: int| 0 <= k < front.len() implies ({
        let part = #[trigger] front[k];
        &&& part.len() > 0
        &&& part == seq!['/'] ==> k == 0
        &&& part != seq!['/'] ==> !part.contains('/')
        &&& part == seq!['.'] ==> k == 0
    }) by {
        assert(parts[k] == front[k]);
    }
}

/// What is left of a path behind a directory leads from the directory to the path; it is
/// there exactly when the path lies in the directory.
pub proof fn lemma_relative(p: Seq<char>, base: Seq<char>)
    ensures
        relative_to(p, base) is Some <==> lies_in(p, base),
        lies_in(p, base) <==> exists|rest: Seq<Seq<char>>|
            components(p) == #[trigger] (components(base) + rest),
        relative_to(p, base) matches Some(r) ==> components(base) + components(r) == components(p)
            && (r.len() == 0 <==> components(p) == components(base)),
{
    let (x, y) = (components(p), components(base));
    lemma_components_are_parts(p);
    if lies_in(p, base) {
        let rest = x.skip(y.len() as int);
        lemma_tail_of_parts(x, y.len() as int);
        lemma_rendered(rest);
        assert(x =~= y + rest);
        if x == y {
            assert(rest.len() == 0);
        }
        if rest.len() == 0 {
            assert(x =~= y);
        }
    }
    if exists|rest: Seq<Seq<char>>| x == #[trigger] (y + rest) {
        let rest = choose|rest: Seq<Seq<char>>| x == #[trigger] (y + rest);
        assert(x.take(y.len() as int) =~= y);
    }
}

/// A path is its directory and the name at its end.
pub proof fn lemma_parent_and_name(p: Seq<char>)
    ensures
        parent_of(p) matches Some(dir) ==> components(dir) == components(p).drop_last(),
        name_of(p) matches Some(name) ==> components(p).last() == name && parent_of(p) is Some,
        parent_of(p) is None <==> components(p).len() == 0 || components(p) == seq![seq!['/']],
{
    let parts = components(p);
    lemma_components_are_parts(p);
    if parts.len() > 0 {
        assert(parts[parts.len() - 1] == parts.last());
        lemma_tail_of_parts(parts, parts.len() - 1);
        assert(parts.take(parts.len() - 1) =~= parts.drop_last());
        lemma_rendered(parts.drop_last());
        if parts.last() == seq!['/'] {
            assert(parts =~= seq![seq!['/']]);
        }
    }
}

/// What stands in a directory under a name has that name, and that directory.
pub proof fn lemma_name_in_directory(dir: Seq<char>, name: Seq<char>)
    requires
        name.len() > 0,
        !name.contains('/'),
        is_name(name),
    ensures
        components(joined(dir, name)) == components(dir).push(name),
        name_of(joined(dir, name)) == Some(name),
        parent_of(joined(dir, name)) matches Some(d) && components(d) == components(dir),
{
    if is_absolute(name) {
        assert(name.contains(name[0]));
    }
    text::lemma_split_of_one(name, '/');
    lemma_counted_of_one(name, true);
    assert(components(name) =~= seq![name]);
    lemma_components_of_joined(dir, name);
    assert(components(dir) + seq![name] =~= components(dir).push(name));
    assert(components(dir).push(name).drop_last() =~= components(dir));
    lemma_parent_and_name(joined(dir, name));
}

/// A path from the root stands for itself below any other, and one separator stands
/// between a directory and what is below it.
pub proof fn lemma_joined_text(base: Seq<char>, name: Seq<char>)
    ensures
        is_absolute(name) ==> joined(base, name) == name,
        !is_absolute(name) && base.len() == 0 ==> joined(base, name) == name,
        !is_absolute(name) ==> joined(base + seq!['/'], name) == base + seq!['/'] + name,
        !is_absolute(name) && base.len() > 0 && base.last() != '/' ==> joined(base, name) == joined(
            base + seq!['/'],
            name,
        ),
        is_absolute(name) <==> name.len() > 0 && name[0] == '/',
{
    if base.len() == 0 {
        assert(base + name =~= name);
    }
}

/// What is joined to a directory lies in it, unless it starts at the root.
pub proof fn lemma_joined_lies_in(base: Seq<char>, name: Seq<char>)
    requires
        !is_absolute(name),
    ensures
        lies_in(joined(base, name), base),
{
    let whole = joined(base, name);
    if base.len() == 0 {
        assert(!base.contains('/'));
        text::lemma_split_of_one(base, '/');
        lemma_counted_of_one(base, true);
        assert(components(base) =~= Seq::<Seq<char>>::empty());
        assert(components(whole) =~= components(base) + components(whole));
    } else {
        lemma_joined_counts(base, name);
        let rest = counted(text::split_on(name, '/'), false);
        assert(components(whole) == components(base) + rest);
    }
    lemma_relative(whole, base);
}

/// Separators that follow each other, one at the end, and points between them do not
/// count: the same path is meant.
pub proof fn lemma_same_components(base: Seq<char>, name: Seq<char>)
    requires
        base.len() > 0,
    ensures
        components(base + seq!['/']) == components(base),
        components(joined(base, seq!['.'])) == components(base),
        !is_absolute(name) ==> components(base + seq!['/'] + (seq!['/'] + name)) == components(
            base + seq!['/'] + name,
        ),
{
    let none = Seq::<char>::empty();
    let dot = seq!['.'];
    let s = seq!['/'];
    let first = !is_absolute(base);
    text::lemma_split_is_nonempty(base, '/');
    let x = text::split_on(base, '/');
    text::lemma_split_of_one(none, '/');
    text::lemma_split_of_two(base, none, '/');
    assert(base + s + none =~= base + s);
    lemma_counted_of_two(x, seq![none], first);
    lemma_counted_of_one(none, false);
    assert((base + s)[0] == base[0]);
    assert(counted(x, first) + Seq::<Seq<char>>::empty() =~= counted(x, first));
    assert(components(base + s) =~= components(base));
    assert(!dot.contains('/'));
    text::lemma_split_of_one(dot, '/');
    lemma_joined_counts(base, dot);
    lemma_counted_of_one(dot, false);
    assert(components(base) + Seq::<Seq<char>>::empty() =~= components(base));
    if !is_absolute(name) {
        let tail = text::split_on(name, '/');
        let a = base + s + name;
        let b = base + s + (s + name);
        assert(none + s + name =~= s + name);
        text::lemma_split_of_two(base, name, '/');
        text::lemma_split_of_two(none, name, '/');
        text::lemma_split_of_two(base, s + name, '/');
        assert(a[0] == base[0] && b[0] == base[0]);
        lemma_counted_of_two(x, tail, first);
        lemma_counted_of_two(x, seq![none] + tail, first);
        lemma_counted_of_two(seq![none], tail, false);
        assert(Seq::<Seq<char>>::empty() + counted(tail, false) =~= counted(tail, false));
        assert(components(a) =~= components(b));
    }
}

/// A path has a name exactly where its last component is one: not the root, a point or
/// two.
pub proof fn lemma_when_a_path_has_a_name(p: Seq<char>)
    ensures
        name_of(p) is Some <==> components(p).len() > 0 && components(p).last() != seq!['/']
            && components(p).last() != seq!['.'] && components(p).last() != seq!['.', '.'],
{
}

} // verus!
