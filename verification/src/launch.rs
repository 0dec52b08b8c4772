//! How a VM was launched, and whether a snapshot or a running VM was launched the same
//! way.
//!
//! A restored guest keeps the mounts and caches that it had. A snapshot is good only for
//! the same host share roots and the same cache policy: another root would silently put
//! another host directory behind the old mount points.
use vstd::prelude::*;

use crate::config;
use crate::config::RunConfig;
use crate::config::VhostUserFsMount;
use crate::paths;
use crate::snapshots;
use crate::text;

verus! {

/// The version of the record: the devices that a guest has are part of it.
pub const LAUNCH_METADATA_VERSION: u32 = 2;

/// The host directories that a guest sees.
#[derive(Debug, PartialEq, Eq)]
pub struct ShareLayout {
    pub host_home: String,
    pub outside_home_cwd: Option<String>,
    pub no_host_shares: bool,
}

/// The shares of a snapshot, with the record that they come from.
#[derive(Debug, PartialEq, Eq)]
pub struct SnapshotShareLayout {
    pub metadata: LaunchMetadata,
    pub layout: ShareLayout,
}

/// The record of how a VM was launched.
#[derive(Clone, Debug, PartialEq, Eq)]
pub struct LaunchMetadata {
    pub version: u32,
    pub owner_args: Vec<String>,
    pub compatibility: LaunchCompatibility,
    pub shares: LaunchShares,
    pub vhost_user_fs: Vec<LaunchVhostUserFsMount>,
}

/// What must be the same for a snapshot to be restored.
#[derive(Clone, Copy, PartialEq, Eq, Structural, Debug)]
pub struct LaunchCompatibility {
    pub host_share_cache: LaunchHostShareCache,
}

/// How the host's files are cached.
#[derive(Clone, Copy, PartialEq, Eq, Structural, Debug)]
pub struct LaunchHostShareCache {
    pub dax: bool,
}

/// The host directories that were shared.
#[derive(Clone, Debug, PartialEq, Eq)]
pub struct LaunchShares {
    pub no_host_shares: bool,
    pub host_home: Option<String>,
    pub outside_home_cwd: Option<String>,
}

/// A file system that another process served.
#[derive(Clone, Debug, PartialEq, Eq)]
pub struct LaunchVhostUserFsMount {
    pub tag: String,
    pub mount: String,
    pub socket: String,
    pub read_only: bool,
}

/// A mount, as plain values.
pub struct MountView {
    pub tag: Seq<char>,
    pub mount: Seq<char>,
    pub socket: Seq<char>,
    pub read_only: bool,
}

impl LaunchVhostUserFsMount {
    /// The mount, as plain values.
    pub open spec fn view(self) -> MountView {
        MountView {
            tag: self.tag@,
            mount: self.mount@,
            socket: self.socket@,
            read_only: self.read_only,
        }
    }

    fn copy(&self) -> (r: LaunchVhostUserFsMount)
        ensures
            r.view() == self.view(),
    {
        LaunchVhostUserFsMount {
            tag: self.tag.clone(),
            mount: self.mount.clone(),
            socket: self.socket.clone(),
            read_only: self.read_only,
        }
    }
}

/// What matters of a launch when it is compared with another: neither the owner's command
/// line nor a working directory outside the home.
pub struct LaunchView {
    pub version: u32,
    pub dax: bool,
    pub no_host_shares: bool,
    pub host_home: Option<Seq<char>>,
    pub mounts: Seq<MountView>,
}

impl LaunchMetadata {
    /// What matters of the launch when it is compared with another.
    pub open spec fn view(self) -> LaunchView {
        LaunchView {
            version: self.version,
            dax: self.compatibility.host_share_cache.dax,
            no_host_shares: self.shares.no_host_shares,
            host_home: text::opt_string(self.shares.host_home),
            mounts: mount_views(self.vhost_user_fs@),
        }
    }
}

/// Mounts, as plain values.
pub open spec fn mount_views(mounts: Seq<LaunchVhostUserFsMount>) -> Seq<MountView> {
    Seq::new(mounts.len(), |i: int| mounts[i].view())
}

/// Mounts that are asked for, as plain values.
pub open spec fn requested_mounts(mounts: Seq<VhostUserFsMount>) -> Seq<MountView> {
    Seq::new(
        mounts.len(),
        |i: int|
            MountView {
                tag: mounts[i].tag@,
                mount: mounts[i].mountpoint@,
                socket: mounts[i].socket@,
                read_only: mounts[i].read_only,
            },
    )
}

// ---------------------------------------------------------------------------
// The order of mounts
// ---------------------------------------------------------------------------

/// The place of a path component among the kinds of components: the root, `.`, `..`, and
/// names.
pub open spec fn component_rank(part: Seq<char>) -> int {
    if part == seq!['/'] {
        0
    } else if part == seq!['.'] {
        1
    } else if part == seq!['.', '.'] {
        2
    } else {
        3
    }
}

/// How two path components stand in order.
pub open spec fn component_order(a: Seq<char>, b: Seq<char>) -> int {
    if component_rank(a) < component_rank(b) {
        -1
    } else if component_rank(a) > component_rank(b) {
        1
    } else {
        text::text_order(a, b)
    }
}

/// How two lists of path components stand in order.
pub open spec fn components_order(a: Seq<Seq<char>>, b: Seq<Seq<char>>) -> int
    decreases a.len(),
{
    if a.len() == 0 {
        if b.len() == 0 {
            0
        } else {
            -1
        }
    } else if b.len() == 0 {
        1
    } else if component_order(a[0], b[0]) != 0 {
        component_order(a[0], b[0])
    } else {
        components_order(a.skip(1), b.skip(1))
    }
}

/// How two truth values stand in order.
pub open spec fn bool_order(a: bool, b: bool) -> int {
    if a == b {
        0
    } else if b {
        -1
    } else {
        1
    }
}

/// How two mounts stand in order: by tag, mount point, socket, and whether they are
/// read-only.
pub open spec fn mount_order(a: MountView, b: MountView) -> int {
    if text::text_order(a.tag, b.tag) != 0 {
        text::text_order(a.tag, b.tag)
    } else if text::text_order(a.mount, b.mount) != 0 {
        text::text_order(a.mount, b.mount)
    } else if components_order(paths::components(a.socket), paths::components(b.socket)) != 0 {
        components_order(paths::components(a.socket), paths::components(b.socket))
    } else {
        bool_order(a.read_only, b.read_only)
    }
}

/// A mount put into ordered mounts, behind those that are not after it.
pub open spec fn inserted(mounts: Seq<MountView>, m: MountView) -> Seq<MountView>
    decreases mounts.len(),
{
    if mounts.len() == 0 || mount_order(mounts.last(), m) <= 0 {
        mounts.push(m)
    } else {
        inserted(mounts.drop_last(), m).push(mounts.last())
    }
}

/// Mounts in order; equal ones stay in the order that they were in.
pub open spec fn normalized(mounts: Seq<MountView>) -> Seq<MountView>
    decreases mounts.len(),
{
    if mounts.len() == 0 {
        Seq::empty()
    } else {
        inserted(normalized(mounts.drop_last()), mounts.last())
    }
}

/// Whether mounts are in order.
pub open spec fn in_order(mounts: Seq<MountView>) -> bool {
    forall|i: int, j: int|
        0 <= i <= j < mounts.len() ==> mount_order(#[trigger] mounts[i], #[trigger] mounts[j]) <= 0
}

proof fn lemma_component_order(a: Seq<char>, b: Seq<char>, c: Seq<char>)
    ensures
        component_order(a, a) == 0,
        component_order(a, b) == -component_order(b, a),
        component_order(a, b) == 0 ==> a == b,
        component_order(a, b) <= 0 && component_order(b, c) <= 0 ==> component_order(a, c) <= 0,
{
    text::lemma_text_order(a, b, c);
    text::lemma_text_order(a, c, b);
}

proof fn lemma_components_order(a: Seq<Seq<char>>, b: Seq<Seq<char>>, c: Seq<Seq<char>>)
    ensures
        components_order(a, a) == 0,
        components_order(a, b) == -components_order(b, a),
        components_order(a, b) == 0 ==> a == b,
        components_order(a, b) <= 0 && components_order(b, c) <= 0 ==> components_order(a, c) <= 0,
    decreases a.len(),
{
    if a.len() > 0 {
        lemma_component_order(a[0], a[0], a[0]);
        if b.len() > 0 && c.len() > 0 {
            lemma_components_order(a.skip(1), b.skip(1), c.skip(1));
            lemma_component_order(a[0], b[0], c[0]);
            lemma_component_order(b[0], c[0], a[0]);
            lemma_component_order(c[0], a[0], b[0]);
            lemma_component_order(a[0], c[0], b[0]);
        } else if b.len() > 0 {
            lemma_components_order(a.skip(1), b.skip(1), c);
            lemma_component_order(a[0], b[0], a[0]);
        } else {
            lemma_components_order(a.skip(1), b, c);
        }
    }
    if components_order(a, b) == 0 {
        if a.len() > 0 && b.len() > 0 {
            assert(a =~= seq![a[0]] + a.skip(1));
            assert(b =~= seq![b[0]] + b.skip(1));
        } else {
            assert(a =~= b);
        }
    }
}

proof fn lemma_mount_order(a: MountView, b: MountView, c: MountView)
    ensures
        mount_order(a, a) == 0,
        mount_order(a, b) == -mount_order(b, a),
        mount_order(a, b) == 0 <==> same_mount(a, b),
        mount_order(a, b) <= 0 && mount_order(b, c) <= 0 ==> mount_order(a, c) <= 0,
{
    let (x, y, z) = (
        paths::components(a.socket),
        paths::components(b.socket),
        paths::components(c.socket),
    );
    text::lemma_text_order(a.tag, b.tag, c.tag);
    text::lemma_text_order(b.tag, c.tag, a.tag);
    text::lemma_text_order(a.tag, c.tag, b.tag);
    text::lemma_text_order(a.mount, b.mount, c.mount);
    text::lemma_text_order(b.mount, c.mount, a.mount);
    text::lemma_text_order(a.mount, c.mount, b.mount);
    lemma_components_order(x, y, z);
    lemma_components_order(y, z, x);
    lemma_components_order(x, z, y);
}

/// Mounts are normalized by putting them in order: nothing is added and nothing is lost.
pub proof fn lemma_normalized_is_ordered(mounts: Seq<MountView>)
    ensures
        in_order(normalized(mounts)),
        normalized(mounts).to_multiset() == mounts.to_multiset(),
        normalized(mounts).len() == mounts.len(),
    decreases mounts.len(),
{
    broadcast use vstd::seq_lib::group_to_multiset_ensures;

    if mounts.len() > 0 {
        lemma_normalized_is_ordered(mounts.drop_last());
        lemma_inserted(normalized(mounts.drop_last()), mounts.last());
        assert(mounts =~= mounts.drop_last().push(mounts.last()));
    }
}

/// What two mounts have in common when they are the same: the socket counts by the
/// components of its path.
pub open spec fn mount_key(m: MountView) -> (Seq<char>, Seq<char>, Seq<Seq<char>>, bool) {
    (m.tag, m.mount, paths::components(m.socket), m.read_only)
}

/// The keys of mounts.
pub open spec fn mount_keys(mounts: Seq<MountView>) -> Seq<
    (Seq<char>, Seq<char>, Seq<Seq<char>>, bool),
> {
    mounts.map_values(|m: MountView| mount_key(m))
}

proof fn lemma_keys_of_inserted(mounts: Seq<MountView>, m: MountView)
    ensures
        mount_keys(inserted(mounts, m)).to_multiset() == mount_keys(mounts).to_multiset().insert(
            mount_key(m),
        ),
    decreases mounts.len(),
{
    broadcast use vstd::seq_lib::group_to_multiset_ensures;

    let keys = mount_keys(mounts);
    if mounts.len() == 0 || mount_order(mounts.last(), m) <= 0 {
        assert(mount_keys(mounts.push(m)) =~= keys.push(mount_key(m)));
    } else {
        let front = mounts.drop_last();
        lemma_keys_of_inserted(front, m);
        assert(mount_keys(inserted(front, m).push(mounts.last())) =~= mount_keys(
            inserted(front, m),
        ).push(mount_key(mounts.last())));
        assert(keys =~= mount_keys(front).push(mount_key(mounts.last())));
        assert(mount_keys(inserted(mounts, m)).to_multiset() =~= keys.to_multiset().insert(
            mount_key(m),
        ));
    }
}

proof fn lemma_keys_of_normalized(mounts: Seq<MountView>)
    ensures
        mount_keys(normalized(mounts)).to_multiset() == mount_keys(mounts).to_multiset(),
    decreases mounts.len(),
{
    broadcast use vstd::seq_lib::group_to_multiset_ensures;

    if mounts.len() > 0 {
        let front = mounts.drop_last();
        lemma_keys_of_normalized(front);
        lemma_keys_of_inserted(normalized(front), mounts.last());
        assert(mount_keys(mounts) =~= mount_keys(front).push(mount_key(mounts.last())));
    } else {
        assert(normalized(mounts) =~= mounts);
    }
}

/// Ordered mounts with the same keys are the same, place by place.
proof fn lemma_ordered_by_keys(a: Seq<MountView>, b: Seq<MountView>)
    requires
        in_order(a),
        in_order(b),
        mount_keys(a).to_multiset() == mount_keys(b).to_multiset(),
    ensures
        same_mounts(a, b),
    decreases a.len(),
{
    broadcast use vstd::seq_lib::group_to_multiset_ensures;

    let (ka, kb) = (mount_keys(a), mount_keys(b));
    assert(ka.len() == ka.to_multiset().len() && kb.len() == kb.to_multiset().len());
    if a.len() > 0 {
        let (x, y) = (a.last(), b.last());
        // Each last mount is somewhere in the other list, and so not after its last one.
        assert(ka.last() == mount_key(x) && kb.last() == mount_key(y));
        assert(ka.contains(mount_key(x)) && kb.contains(mount_key(y)));
        assert(kb.to_multiset().count(mount_key(x)) > 0);
        assert(ka.to_multiset().count(mount_key(y)) > 0);
        assert(kb.contains(mount_key(x)));
        assert(ka.contains(mount_key(y)));
        let i = choose|i: int| 0 <= i < kb.len() && kb[i] == mount_key(x);
        let j = choose|j: int| 0 <= j < ka.len() && ka[j] == mount_key(y);
        assert(same_mount(b[i], x) && same_mount(a[j], y));
        assert(mount_order(b[i], b[b.len() - 1]) <= 0);
        assert(mount_order(a[j], a[a.len() - 1]) <= 0);
        lemma_mount_order(b[i], x, y);
        lemma_mount_order(x, b[i], y);
        lemma_mount_order(a[j], y, x);
        lemma_mount_order(y, a[j], x);
        lemma_mount_order(x, y, x);
        assert(mount_key(x) == mount_key(y));
        let (fa, fb) = (a.drop_last(), b.drop_last());
        assert(ka =~= mount_keys(fa).push(mount_key(x)));
        assert(kb =~= mount_keys(fb).push(mount_key(y)));
        assert(mount_keys(fa).to_multiset() =~= ka.to_multiset().remove(mount_key(x)));
        assert(mount_keys(fb).to_multiset() =~= kb.to_multiset().remove(mount_key(y)));
        assert(in_order(fa)) by {
            assert forall|i: int, j: int| 0 <= i <= j < fa.len() implies mount_order(
                #[trigger] fa[i],
                #[trigger] fa[j],
            ) <= 0 by {
                assert(mount_order(a[i], a[j]) <= 0);
            }
        }
        assert(in_order(fb)) by {
            assert forall|i: int, j: int| 0 <= i <= j < fb.len() implies mount_order(
                #[trigger] fb[i],
                #[trigger] fb[j],
            ) <= 0 by {
                assert(mount_order(b[i], b[j]) <= 0);
            }
        }
        lemma_ordered_by_keys(fa, fb);
        assert forall|k: int| 0 <= k < a.len() implies same_mount(#[trigger] a[k], b[k]) by {
            if k < fa.len() {
                assert(same_mount(fa[k], fb[k]));
            }
        }
    }
}

/// Two lists of mounts are normalized to the same list exactly when one is a permutation of
/// the other. Mounts are the same when their keys are: a socket may be written in more than
/// one way.
pub proof fn lemma_normalized_decides_permutation(a: Seq<MountView>, b: Seq<MountView>)
    ensures
        same_mounts(normalized(a), normalized(b)) <==> mount_keys(a).to_multiset() == mount_keys(
            b,
        ).to_multiset(),
{
    lemma_keys_of_normalized(a);
    lemma_keys_of_normalized(b);
    lemma_normalized_is_ordered(a);
    lemma_normalized_is_ordered(b);
    if mount_keys(a).to_multiset() == mount_keys(b).to_multiset() {
        lemma_ordered_by_keys(normalized(a), normalized(b));
    }
    if same_mounts(normalized(a), normalized(b)) {
        assert(mount_keys(normalized(a)) =~= mount_keys(normalized(b)));
    }
}

/// Where a socket is written in one way only, two lists of mounts are normalized to equal
/// lists exactly when one is a permutation of the other.
pub proof fn lemma_normalized_is_canonical(a: Seq<MountView>, b: Seq<MountView>)
    requires
        forall|x: MountView, y: MountView|
            #![trigger a.contains(x), b.contains(y)]
            a.contains(x) && b.contains(y) && same_mount(x, y) ==> x == y,
    ensures
        normalized(a) == normalized(b) <==> a.to_multiset() == b.to_multiset(),
{
    broadcast use vstd::seq_lib::group_to_multiset_ensures;

    lemma_normalized_is_ordered(a);
    lemma_normalized_is_ordered(b);
    if a.to_multiset() == b.to_multiset() {
        let (na, nb) = (normalized(a), normalized(b));
        lemma_keys_of_multiset(a, b);
        lemma_normalized_decides_permutation(a, b);
        assert forall|i: int| 0 <= i < na.len() implies na[i] == nb[i] by {
            assert(same_mount(na[i], nb[i]));
            assert(na.contains(na[i]) && nb.contains(nb[i]));
            assert(na.to_multiset().count(na[i]) > 0);
            assert(nb.to_multiset().count(nb[i]) > 0);
            assert(a.contains(na[i]) && b.contains(nb[i]));
        }
        assert(na =~= nb);
    }
}

proof fn lemma_keys_of_multiset(a: Seq<MountView>, b: Seq<MountView>)
    requires
        a.to_multiset() == b.to_multiset(),
    ensures
        mount_keys(a).to_multiset() == mount_keys(b).to_multiset(),
    decreases a.len(),
{
    broadcast use vstd::seq_lib::group_to_multiset_ensures;

    assert(a.len() == a.to_multiset().len() && b.len() == b.to_multiset().len());
    if a.len() > 0 {
        let x = a.last();
        assert(a.contains(x));
        assert(b.to_multiset().count(x) > 0);
        assert(b.contains(x));
        let i = choose|i: int| 0 <= i < b.len() && b[i] == x;
        let (fa, fb) = (a.drop_last(), b.remove(i));
        assert(a =~= fa.push(x));
        assert(fa.to_multiset() =~= a.to_multiset().remove(x));
        assert(fb.to_multiset() =~= b.to_multiset().remove(x));
        lemma_keys_of_multiset(fa, fb);
        assert(mount_keys(a) =~= mount_keys(fa).push(mount_key(x)));
        assert(mount_keys(fb) =~= mount_keys(b).remove(i));
        assert(mount_keys(b)[i] == mount_key(x));
        assert(mount_keys(b).to_multiset() =~= mount_keys(fb).to_multiset().insert(mount_key(x)));
    } else {
        assert(a =~= b);
    }
}

/// Mounts that are in order stay as they are.
proof fn lemma_ordered_is_normalized(mounts: Seq<MountView>)
    requires
        in_order(mounts),
    ensures
        normalized(mounts) == mounts,
    decreases mounts.len(),
{
    if mounts.len() > 0 {
        let front = mounts.drop_last();
        assert forall|i: int, j: int| 0 <= i <= j < front.len() implies mount_order(
            #[trigger] front[i],
            #[trigger] front[j],
        ) <= 0 by {
            assert(mount_order(mounts[i], mounts[j]) <= 0);
        }
        lemma_ordered_is_normalized(front);
        if front.len() > 0 {
            assert(mount_order(mounts[front.len() - 1], mounts[mounts.len() - 1]) <= 0);
        }
        assert(front.push(mounts.last()) =~= mounts);
    } else {
        assert(normalized(mounts) =~= mounts);
    }
}

/// To normalize mounts twice changes nothing.
pub proof fn lemma_normalized_stays(mounts: Seq<MountView>)
    ensures
        normalized(normalized(mounts)) == normalized(mounts),
{
    lemma_normalized_is_ordered(mounts);
    lemma_ordered_is_normalized(normalized(mounts));
}

proof fn lemma_inserted(mounts: Seq<MountView>, m: MountView)
    requires
        in_order(mounts),
    ensures
        in_order(inserted(mounts, m)),
        inserted(mounts, m).to_multiset() == mounts.to_multiset().insert(m),
        inserted(mounts, m).len() == mounts.len() + 1,
        forall|i: int|
            0 <= i < mounts.len() + 1 ==> (#[trigger] inserted(mounts, m)[i] == m || exists|k: int|
                0 <= k < mounts.len() && inserted(mounts, m)[i] == #[trigger] mounts[k]),
    decreases mounts.len(),
{
    broadcast use vstd::seq_lib::group_to_multiset_ensures;

    let r = inserted(mounts, m);
    if mounts.len() == 0 || mount_order(mounts.last(), m) <= 0 {
        assert forall|i: int, j: int| 0 <= i <= j < r.len() implies mount_order(
            #[trigger] r[i],
            #[trigger] r[j],
        ) <= 0 by {
            lemma_mount_order(m, m, m);
            if j == mounts.len() && i < mounts.len() {
                lemma_mount_order(mounts[i], mounts.last(), m);
            }
        }
        assert forall|i: int| 0 <= i < mounts.len() implies r[i] == mounts[i] by {}
    } else {
        let front = mounts.drop_last();
        let last = mounts.last();
        lemma_inserted(front, m);
        let f = inserted(front, m);
        assert(mounts =~= front.push(last));
        lemma_mount_order(last, m, m);
        assert forall|i: int| 0 <= i < f.len() implies mount_order(#[trigger] f[i], last) <= 0 by {
            if f[i] != m {
                let k = choose|k: int| 0 <= k < front.len() && f[i] == #[trigger] front[k];
                assert(front[k] == mounts[k]);
                assert(mount_order(mounts[k], mounts[mounts.len() - 1]) <= 0);
            }
        }
        assert forall|i: int, j: int| 0 <= i <= j < r.len() implies mount_order(
            #[trigger] r[i],
            #[trigger] r[j],
        ) <= 0 by {
            if j == f.len() {
                lemma_mount_order(last, last, last);
            } else {
                assert(r[i] == f[i] && r[j] == f[j]);
            }
        }
        assert forall|i: int| 0 <= i < mounts.len() + 1 implies (#[trigger] r[i] == m || exists|
            k: int,
        |
            0 <= k < mounts.len() && r[i] == #[trigger] mounts[k]) by {
            if i == f.len() {
                assert(r[i] == mounts[mounts.len() - 1]);
            } else if f[i] != m {
                let k = choose|k: int| 0 <= k < front.len() && f[i] == #[trigger] front[k];
                assert(mounts[k] == front[k]);
            }
        }
        assert(mounts.to_multiset() =~= front.to_multiset().insert(last));
        assert(r.to_multiset() =~= mounts.to_multiset().insert(m));
    }
}

fn rank_of(part: &str) -> (r: i8)
    ensures
        r == component_rank(part@),
{
    proof {
        reveal_strlit("/");
        reveal_strlit(".");
        reveal_strlit("..");
        assert("/"@ =~= seq!['/']);
        assert("."@ =~= seq!['.']);
        assert(".."@ =~= seq!['.', '.']);
    }
    if text::same(part, "/") {
        0
    } else if text::same(part, ".") {
        1
    } else if text::same(part, "..") {
        2
    } else {
        3
    }
}

fn order_of_components(a: &str, b: &str) -> (r: i8)
    ensures
        r == component_order(a@, b@),
{
    let x: i8 = rank_of(a);
    let y: i8 = rank_of(b);
    if x < y {
        -1
    } else if x > y {
        1
    } else {
        text::order_of_texts(a, b)
    }
}

fn order_of_paths(a: &str, b: &str) -> (r: i8)
    ensures
        r == components_order(paths::components(a@), paths::components(b@)),
{
    let x: Vec<String> = paths::components_of(a);
    let y: Vec<String> = paths::components_of(b);
    let ghost p = paths::components(a@);
    let ghost q = paths::components(b@);
    let mut i: usize = 0;
    assert(p.skip(0) =~= p);
    assert(q.skip(0) =~= q);
    while i < x.len() && i < y.len()
        invariant
            i <= x@.len(),
            i <= y@.len(),
            p == text::views(x@),
            q == text::views(y@),
            p == paths::components(a@),
            q == paths::components(b@),
            components_order(p, q) == components_order(p.skip(i as int), q.skip(i as int)),
        decreases x@.len() - i,
    {
        proof {
            assert(p.skip(i as int).skip(1) =~= p.skip(i + 1));
            assert(q.skip(i as int).skip(1) =~= q.skip(i + 1));
            assert(p.skip(i as int)[0] == x@[i as int]@);
            assert(q.skip(i as int)[0] == y@[i as int]@);
        }
        let o: i8 = order_of_components(x[i].as_str(), y[i].as_str());
        if o != 0 {
            return o;
        }
        i = i + 1;
    }
    if i < x.len() {
        1
    } else if i < y.len() {
        -1
    } else {
        0
    }
}

fn order_of_mounts(a: &LaunchVhostUserFsMount, b: &LaunchVhostUserFsMount) -> (r: i8)
    ensures
        r == mount_order(a.view(), b.view()),
{
    let by_tag: i8 = text::order_of_texts(a.tag.as_str(), b.tag.as_str());
    if by_tag != 0 {
        return by_tag;
    }
    let by_mount: i8 = text::order_of_texts(a.mount.as_str(), b.mount.as_str());
    if by_mount != 0 {
        return by_mount;
    }
    let by_socket: i8 = order_of_paths(a.socket.as_str(), b.socket.as_str());
    if by_socket != 0 {
        return by_socket;
    }
    if a.read_only == b.read_only {
        0
    } else if b.read_only {
        -1
    } else {
        1
    }
}

/// Where a mount goes among ordered ones.
fn place_for(mounts: &Vec<LaunchVhostUserFsMount>, m: &LaunchVhostUserFsMount) -> (i: usize)
    ensures
        i <= mounts@.len(),
        mount_views(mounts@).insert(i as int, m.view()) == inserted(mount_views(mounts@), m.view()),
{
    let ghost all = mount_views(mounts@);
    let mut i: usize = mounts.len();
    assert(all.take(i as int) =~= all);
    assert(all.skip(i as int) =~= Seq::<MountView>::empty());
    assert(inserted(all, m.view()) + Seq::<MountView>::empty() =~= inserted(all, m.view()));
    while i > 0 && order_of_mounts(&mounts[i - 1], m) > 0
        invariant
            i <= mounts@.len(),
            all == mount_views(mounts@),
            inserted(all, m.view()) == inserted(all.take(i as int), m.view()) + all.skip(i as int),
        decreases i,
    {
        proof {
            let front = all.take(i as int);
            assert(front.last() == mounts@[i - 1].view());
            assert(front.drop_last() =~= all.take(i - 1));
            assert(inserted(front, m.view()) == inserted(all.take(i - 1), m.view()).push(
                front.last(),
            ));
            assert(inserted(all.take(i - 1), m.view()).push(front.last()) + all.skip(i as int)
                =~= inserted(all.take(i - 1), m.view()) + all.skip(i - 1));
        }
        i = i - 1;
    }
    proof {
        let front = all.take(i as int);
        if i > 0 {
            assert(front.last() == mounts@[i - 1].view());
        }
        assert(inserted(front, m.view()) == front.push(m.view()));
        assert(all.insert(i as int, m.view()) =~= front.push(m.view()) + all.skip(i as int));
    }
    i
}

/// Puts mounts in order.
pub fn normalized_vhost_user_fs(mounts: &Vec<LaunchVhostUserFsMount>) -> (r: Vec<
    LaunchVhostUserFsMount,
>)
    ensures
        mount_views(r@) == normalized(mount_views(mounts@)),
{
    let ghost all = mount_views(mounts@);
    let mut r: Vec<LaunchVhostUserFsMount> = Vec::new();
    let mut i: usize = 0;
    assert(mount_views(r@) =~= Seq::<MountView>::empty());
    assert(all.take(0) =~= Seq::<MountView>::empty());
    while i < mounts.len()
        invariant
            i <= mounts@.len(),
            all == mount_views(mounts@),
            mount_views(r@) == normalized(all.take(i as int)),
        decreases mounts@.len() - i,
    {
        let at: usize = place_for(&r, &mounts[i]);
        let ghost before = mount_views(r@);
        let m: LaunchVhostUserFsMount = mounts[i].copy();
        r.insert(at, m);
        proof {
            assert(mount_views(r@) =~= before.insert(at as int, mounts@[i as int].view()));
            assert(all.take(i + 1).drop_last() =~= all.take(i as int));
            assert(all.take(i + 1).last() == mounts@[i as int].view());
        }
        i = i + 1;
    }
    assert(all.take(i as int) =~= all);
    r
}

// ---------------------------------------------------------------------------
// Comparing launches
// ---------------------------------------------------------------------------

/// Whether two mounts are the same: sockets are compared as paths.
pub open spec fn same_mount(a: MountView, b: MountView) -> bool {
    &&& a.tag == b.tag
    &&& a.mount == b.mount
    &&& paths::components(a.socket) == paths::components(b.socket)
    &&& a.read_only == b.read_only
}

/// Whether two lists of mounts are the same, in order.
pub open spec fn same_mounts(a: Seq<MountView>, b: Seq<MountView>) -> bool {
    a.len() == b.len() && forall|i: int|
        0 <= i < a.len() ==> same_mount(#[trigger] a[i], b[i])
}

/// Whether two optional paths are the same.
pub open spec fn same_opt_path(a: Option<Seq<char>>, b: Option<Seq<char>>) -> bool {
    match (a, b) {
        (Some(x), Some(y)) => paths::components(x) == paths::components(y),
        (None, None) => true,
        _ => false,
    }
}

/// Whether two VMs were launched the same way.
pub open spec fn launches_match(a: LaunchView, b: LaunchView) -> bool {
    &&& a.version == b.version
    &&& a.dax == b.dax
    &&& a.no_host_shares == b.no_host_shares
    &&& same_opt_path(a.host_home, b.host_home)
    &&& same_mounts(a.mounts, b.mounts)
}

/// Every launch matches itself.
pub proof fn lemma_launch_matches_itself(a: LaunchView)
    ensures
        launches_match(a, a),
{
}

/// When one launch matches another, the other matches it.
pub proof fn lemma_launches_match_both_ways(a: LaunchView, b: LaunchView)
    ensures
        launches_match(a, b) == launches_match(b, a),
{
    assert(same_mounts(a.mounts, b.mounts) ==> same_mounts(b.mounts, a.mounts));
    assert(same_mounts(b.mounts, a.mounts) ==> same_mounts(a.mounts, b.mounts));
}

/// Launches that match a third one match each other.
pub proof fn lemma_launches_match_through(a: LaunchView, b: LaunchView, c: LaunchView)
    requires
        launches_match(a, b),
        launches_match(b, c),
    ensures
        launches_match(a, c),
{
}

/// A launch matches one that differs only in the owner's command line and in the working
/// directory outside the home.
pub proof fn lemma_cwd_is_ignored(
    a: LaunchMetadata,
    owner_args: Vec<String>,
    outside_home_cwd: Option<String>,
)
    ensures
        launches_match(
            a@,
            (LaunchMetadata {
                owner_args,
                shares: LaunchShares { outside_home_cwd, ..a.shares },
                ..a
            })@,
        ),
{
}

fn mounts_are_same(a: &Vec<LaunchVhostUserFsMount>, b: &Vec<LaunchVhostUserFsMount>) -> (r: bool)
    ensures
        r == same_mounts(mount_views(a@), mount_views(b@)),
{
    if a.len() != b.len() {
        return false;
    }
    let ghost x = mount_views(a@);
    let ghost y = mount_views(b@);
    let mut i: usize = 0;
    while i < a.len()
        invariant
            i <= a@.len() == b@.len(),
            x == mount_views(a@),
            y == mount_views(b@),
            forall|k: int| 0 <= k < i ==> same_mount(#[trigger] x[k], y[k]),
        decreases a@.len() - i,
    {
        let same: bool = text::same(a[i].tag.as_str(), b[i].tag.as_str()) && text::same(
            a[i].mount.as_str(),
            b[i].mount.as_str(),
        ) && paths::same_path(a[i].socket.as_str(), b[i].socket.as_str()) && a[i].read_only
            == b[i].read_only;
        assert(same == same_mount(x[i as int], y[i as int]));
        if !same {
            return false;
        }
        i = i + 1;
    }
    true
}

fn paths_are_same(a: &Option<String>, b: &Option<String>) -> (r: bool)
    ensures
        r == same_opt_path(text::opt_string(*a), text::opt_string(*b)),
{
    match (a, b) {
        (Some(x), Some(y)) => paths::same_path(x.as_str(), y.as_str()),
        (None, None) => true,
        _ => false,
    }
}

/// Whether two VMs were launched the same way, whatever directory they were launched
/// from.
pub fn launch_metadata_matches_ignoring_cwd(
    snapshot: &LaunchMetadata,
    current: &LaunchMetadata,
) -> (r: bool)
    ensures
        r == launches_match(snapshot@, current@),
{
    snapshot.version == current.version && snapshot.compatibility.host_share_cache.dax
        == current.compatibility.host_share_cache.dax && snapshot.shares.no_host_shares == current.shares.no_host_shares && paths_are_same(
        &snapshot.shares.host_home,
        &current.shares.host_home,
    ) && mounts_are_same(&snapshot.vhost_user_fs, &current.vhost_user_fs)
}

// ---------------------------------------------------------------------------
// Describing a difference
// ---------------------------------------------------------------------------

/// Whether shares are on, in words.
pub open spec fn shares_word(no_host_shares: bool) -> Seq<char> {
    if no_host_shares {
        "disabled"@
    } else {
        "enabled"@
    }
}

/// The cache policy, in words.
pub open spec fn cache_word(dax: bool) -> Seq<char> {
    if dax {
        "dax"@
    } else {
        "nodax"@
    }
}

/// An optional path, in words.
pub open spec fn path_words(path: Option<Seq<char>>) -> Seq<char> {
    match path {
        Some(p) => p,
        None => "<absent>"@,
    }
}

/// A mount, in words.
pub open spec fn mount_words(m: MountView) -> Seq<char> {
    m.tag + ":"@ + m.mount + ":"@ + m.socket + ":"@ + (if m.read_only {
        "ro"@
    } else {
        "rw"@
    })
}

/// Mounts in order, in words.
pub open spec fn mounts_words(mounts: Seq<MountView>) -> Seq<char> {
    text::joined(Seq::new(mounts.len(), |i: int| mount_words(mounts[i])), ";"@)
}

/// One difference, where there is one.
pub open spec fn difference(
    differs: bool,
    name: Seq<char>,
    snapshot: Seq<char>,
    current: Seq<char>,
) -> Seq<Seq<char>> {
    if differs {
        seq![name + ": snapshot="@ + snapshot + " current="@ + current]
    } else {
        Seq::empty()
    }
}

/// The differences between two launches that matter.
pub open spec fn differences(a: LaunchView, b: LaunchView) -> Seq<Seq<char>> {
    difference(
        a.no_host_shares != b.no_host_shares,
        "host-shares"@,
        shares_word(a.no_host_shares),
        shares_word(b.no_host_shares),
    ) + difference(a.dax != b.dax, "host-share-cache"@, cache_word(a.dax), cache_word(b.dax))
        + difference(
        !same_opt_path(a.host_home, b.host_home),
        "home"@,
        path_words(a.host_home),
        path_words(b.host_home),
    ) + difference(
        !same_mounts(normalized(a.mounts), normalized(b.mounts)),
        "vhost-user-fs"@,
        mounts_words(normalized(a.mounts)),
        mounts_words(normalized(b.mounts)),
    )
}

/// What is said of two launches that do not match.
pub open spec fn mismatch_text(a: LaunchView, b: LaunchView) -> Seq<char> {
    if differences(a, b).len() == 0 {
        "share_mismatch: launch metadata differs only in ignored fields"@
    } else {
        "share_mismatch: "@ + text::joined(differences(a, b), "; "@)
    }
}

fn shares_word_of(no_host_shares: bool) -> (s: &'static str)
    ensures
        s@ == shares_word(no_host_shares),
{
    if no_host_shares {
        "disabled"
    } else {
        "enabled"
    }
}

fn describe_host_share_cache(cache: &LaunchHostShareCache) -> (s: &'static str)
    ensures
        s@ == cache_word(cache.dax),
{
    if cache.dax {
        "dax"
    } else {
        "nodax"
    }
}

fn optional_path_display(path: &Option<String>) -> (s: String)
    ensures
        s@ == path_words(text::opt_string(*path)),
{
    match path {
        Some(p) => p.clone(),
        None => "<absent>".to_owned(),
    }
}

fn words_of_mount(m: &LaunchVhostUserFsMount) -> (s: String)
    ensures
        s@ == mount_words(m.view()),
{
    let mut s: String = m.tag.clone();
    s.append(":");
    s.append(m.mount.as_str());
    s.append(":");
    s.append(m.socket.as_str());
    s.append(":");
    if m.read_only {
        s.append("ro");
    } else {
        s.append("rw");
    }
    s
}

/// Mounts in order, in words.
pub fn vhost_user_fs_launch_value(mounts: &Vec<LaunchVhostUserFsMount>) -> (s: String)
    ensures
        s@ == mounts_words(normalized(mount_views(mounts@))),
{
    let ordered: Vec<LaunchVhostUserFsMount> = normalized_vhost_user_fs(mounts);
    let ghost all = mount_views(ordered@);
    let mut parts: Vec<String> = Vec::new();
    let mut i: usize = 0;
    while i < ordered.len()
        invariant
            i <= ordered@.len(),
            all == mount_views(ordered@),
            parts@.len() == i,
            forall|k: int| 0 <= k < i ==> (#[trigger] parts@[k])@ == mount_words(all[k]),
        decreases ordered@.len() - i,
    {
        parts.push(words_of_mount(&ordered[i]));
        i = i + 1;
    }
    assert(text::views(parts@) =~= Seq::new(all.len(), |k: int| mount_words(all[k])));
    text::join(&parts, ";")
}

fn push_difference(out: &mut Vec<String>, differs: bool, name: &str, snapshot: &str, current: &str)
    ensures
        text::views(final(out)@) == text::views(old(out)@) + difference(
            differs,
            name@,
            snapshot@,
            current@,
        ),
{
    let ghost before = text::views(out@);
    if differs {
        let mut s: String = name.to_owned();
        s.append(": snapshot=");
        s.append(snapshot);
        s.append(" current=");
        s.append(current);
        config::push_arg(out, s.as_str());
    }
    assert(text::views(out@) =~= before + difference(differs, name@, snapshot@, current@));
}

/// Says how two launches differ.
pub fn describe_launch_mismatch(snapshot: &LaunchMetadata, current: &LaunchMetadata) -> (s: String)
    ensures
        s@ == mismatch_text(snapshot@, current@),
{
    let mut found: Vec<String> = Vec::new();
    assert(text::views(found@) =~= Seq::<Seq<char>>::empty());
    push_difference(
        &mut found,
        snapshot.shares.no_host_shares != current.shares.no_host_shares,
        "host-shares",
        shares_word_of(snapshot.shares.no_host_shares),
        shares_word_of(current.shares.no_host_shares),
    );
    let ghost first = difference(
        snapshot.shares.no_host_shares != current.shares.no_host_shares,
        "host-shares"@,
        shares_word(snapshot.shares.no_host_shares),
        shares_word(current.shares.no_host_shares),
    );
    assert(Seq::<Seq<char>>::empty() + first =~= first);
    push_difference(
        &mut found,
        snapshot.compatibility.host_share_cache.dax != current.compatibility.host_share_cache.dax,
        "host-share-cache",
        describe_host_share_cache(&snapshot.compatibility.host_share_cache),
        describe_host_share_cache(&current.compatibility.host_share_cache),
    );
    push_difference(
        &mut found,
        !paths_are_same(&snapshot.shares.host_home, &current.shares.host_home),
        "home",
        optional_path_display(&snapshot.shares.host_home).as_str(),
        optional_path_display(&current.shares.host_home).as_str(),
    );
    let x: Vec<LaunchVhostUserFsMount> = normalized_vhost_user_fs(&snapshot.vhost_user_fs);
    let y: Vec<LaunchVhostUserFsMount> = normalized_vhost_user_fs(&current.vhost_user_fs);
    push_difference(
        &mut found,
        !mounts_are_same(&x, &y),
        "vhost-user-fs",
        vhost_user_fs_launch_value(&snapshot.vhost_user_fs).as_str(),
        vhost_user_fs_launch_value(&current.vhost_user_fs).as_str(),
    );
    assert(found@.len() == text::views(found@).len());
    if found.len() == 0 {
        "share_mismatch: launch metadata differs only in ignored fields".to_owned()
    } else {
        let mut s: String = "share_mismatch: ".to_owned();
        s.append(text::join(&found, "; ").as_str());
        s
    }
}

// ---------------------------------------------------------------------------
// Recorded launches
// ---------------------------------------------------------------------------

/// What came of reading the record of a launch.
#[derive(Debug, PartialEq, Eq)]
pub enum LaunchRead {
    Found(LaunchMetadata),
    /// There is none.
    Missing,
    /// It cannot be read, or is none, for this reason.
    Failed(String),
}

/// Whether the default restore snapshot was recorded by this version. A snapshot without
/// a record counts: deciding about it is left to the general check.
pub fn default_restore_version_matches(record: &LaunchRead) -> (r: bool)
    ensures
        r == (match *record {
            LaunchRead::Found(m) => m.version == LAUNCH_METADATA_VERSION,
            LaunchRead::Missing => true,
            LaunchRead::Failed(_) => false,
        }),
{
    match record {
        LaunchRead::Found(m) => m.version == LAUNCH_METADATA_VERSION,
        LaunchRead::Missing => true,
        LaunchRead::Failed(_) => false,
    }
}

/// Why a snapshot cannot be restored into a launch; nothing when it can.
pub open spec fn incompatibility(record: LaunchRead, current: LaunchView) -> Option<Seq<char>> {
    match record {
        LaunchRead::Found(m) => if launches_match(m@, current) {
            None
        } else {
            Some(mismatch_text(m@, current))
        },
        LaunchRead::Missing => Some("launch_metadata: snapshot has no launch.json"@),
        LaunchRead::Failed(e) => Some("launch_metadata_unreadable: "@ + e@),
    }
}

/// Says why a snapshot cannot be restored into a launch.
pub fn snapshot_launch_incompatibility(record: &LaunchRead, current: &LaunchMetadata) -> (r: Option<
    String,
>)
    ensures
        text::opt_string(r) == incompatibility(*record, current@),
{
    match record {
        LaunchRead::Found(m) => if launch_metadata_matches_ignoring_cwd(m, current) {
            None
        } else {
            Some(describe_launch_mismatch(m, current))
        },
        LaunchRead::Missing => Some("launch_metadata: snapshot has no launch.json".to_owned()),
        LaunchRead::Failed(e) => {
            let mut s: String = "launch_metadata_unreadable: ".to_owned();
            s.append(e.as_str());
            Some(s)
        },
    }
}

/// The shares that a snapshot was taken with.
pub fn snapshot_share_layout(metadata: LaunchMetadata) -> (r: SnapshotShareLayout)
    ensures
        r.metadata == metadata,
        r.layout.host_home@ == (match metadata.shares.host_home {
            Some(home) => home@,
            None => Seq::<char>::empty(),
        }),
        text::opt_string(r.layout.outside_home_cwd) == text::opt_string(
            metadata.shares.outside_home_cwd,
        ),
        r.layout.no_host_shares == metadata.shares.no_host_shares,
{
    let host_home: String = match &metadata.shares.host_home {
        Some(home) => home.clone(),
        None => String::new(),
    };
    let outside_home_cwd: Option<String> = match &metadata.shares.outside_home_cwd {
        Some(cwd) => Some(cwd.clone()),
        None => None,
    };
    let no_host_shares: bool = metadata.shares.no_host_shares;
    SnapshotShareLayout {
        layout: ShareLayout { host_home, outside_home_cwd, no_host_shares },
        metadata,
    }
}

// ---------------------------------------------------------------------------
// The launch that is asked for
// ---------------------------------------------------------------------------

/// The home of the user that a working directory belongs to: on a host with homes below
/// `/Users` the one that the directory lies in, or else the user's own.
pub open spec fn home_for(cwd: Seq<char>, own: Option<Seq<char>>) -> Option<Seq<char>> {
    let parts = paths::components(cwd);
    if parts.len() >= 3 && parts[0] == seq!['/'] && parts[1] == "Users"@ {
        Some(paths::joined("/Users"@, parts[2]))
    } else {
        own
    }
}

/// The host has no home directory for the user.
#[derive(Debug, PartialEq, Eq)]
pub struct NoHome;

impl NoHome {
    /// The message shown to the user.
    pub fn message(&self) -> (m: &'static str)
        ensures
            m@ == "host home directory"@,
    {
        "host home directory"
    }
}

/// The home of the user that a working directory belongs to. `own` is the user's own
/// home, where the host knows one.
pub fn host_home_for_cwd(cwd: &str, own: Option<&str>) -> (r: Result<String, NoHome>)
    ensures
        match r {
            Ok(home) => home_for(cwd@, text::opt_view(own)) == Some(home@),
            Err(_) => home_for(cwd@, text::opt_view(own)) is None,
        },
{
    let parts: Vec<String> = paths::components_of(cwd);
    proof {
        reveal_strlit("/");
        assert("/"@ =~= seq!['/']);
        assert(paths::components(cwd@).len() == parts@.len());
    }
    if parts.len() >= 3 {
        assert(paths::components(cwd@)[0] == parts@[0]@);
        assert(paths::components(cwd@)[1] == parts@[1]@);
        assert(paths::components(cwd@)[2] == parts@[2]@);
        if text::same(parts[0].as_str(), "/") && text::same(parts[1].as_str(), "Users") {
            return Ok(paths::join("/Users", parts[2].as_str()));
        }
    }
    match own {
        Some(home) => Ok(home.to_owned()),
        None => Err(NoHome),
    }
}

/// The working directory where it lies outside a home.
pub open spec fn outside_home(cwd: Seq<char>, home: Seq<char>) -> Option<Seq<char>> {
    if paths::lies_in(cwd, home) {
        None
    } else {
        Some(cwd)
    }
}

/// The working directory where it lies outside a home.
pub fn outside_home_cwd(cwd: &str, home: &str) -> (r: Option<String>)
    ensures
        text::opt_string(r) == outside_home(cwd@, home@),
{
    if paths::path_starts_with(cwd, home) {
        None
    } else {
        Some(cwd.to_owned())
    }
}

/// The launch that is asked for: the user's home, unless nothing is shared, and mounts.
pub open spec fn requested_launch(
    home: Seq<char>,
    no_host_shares: bool,
    mounts: Seq<MountView>,
) -> LaunchView {
    LaunchView {
        version: LAUNCH_METADATA_VERSION,
        dax: true,
        no_host_shares,
        host_home: if no_host_shares {
            None
        } else {
            Some(home)
        },
        mounts,
    }
}

/// Whether a record says that a VM shares these directories, with the present version and
/// cache policy.
pub open spec fn records_shares(
    m: LaunchMetadata,
    home: Seq<char>,
    outside: Option<Seq<char>>,
    no_host_shares: bool,
) -> bool {
    &&& m.version == LAUNCH_METADATA_VERSION
    &&& m.compatibility.host_share_cache.dax
    &&& m.shares.no_host_shares == no_host_shares
    &&& text::opt_string(m.shares.host_home) == (if no_host_shares {
        None
    } else {
        Some(home)
    })
    &&& text::opt_string(m.shares.outside_home_cwd) == (if no_host_shares {
        None
    } else {
        outside
    })
}

fn launch_record(
    home: String,
    outside: Option<String>,
    no_host_shares: bool,
    owner_args: Vec<String>,
    mounts: Vec<LaunchVhostUserFsMount>,
) -> (m: LaunchMetadata)
    ensures
        records_shares(m, home@, text::opt_string(outside), no_host_shares),
        m@ == requested_launch(home@, no_host_shares, mount_views(mounts@)),
        m.owner_args == owner_args,
        m.vhost_user_fs == mounts,
{
    let shares: LaunchShares = if no_host_shares {
        LaunchShares { no_host_shares, host_home: None, outside_home_cwd: None }
    } else {
        LaunchShares { no_host_shares, host_home: Some(home), outside_home_cwd: outside }
    };
    LaunchMetadata {
        version: LAUNCH_METADATA_VERSION,
        owner_args,
        compatibility: LaunchCompatibility { host_share_cache: host_share_cache_metadata() },
        shares,
        vhost_user_fs: mounts,
    }
}

/// The present cache policy.
pub fn host_share_cache_metadata() -> (r: LaunchHostShareCache)
    ensures
        r.dax,
{
    LaunchHostShareCache { dax: true }
}

fn record_mounts(mounts: &Vec<VhostUserFsMount>) -> (r: Vec<LaunchVhostUserFsMount>)
    ensures
        mount_views(r@) == requested_mounts(mounts@),
{
    let mut r: Vec<LaunchVhostUserFsMount> = Vec::new();
    let mut i: usize = 0;
    while i < mounts.len()
        invariant
            i <= mounts@.len(),
            r@.len() == i,
            forall|k: int| 0 <= k < i ==> #[trigger] mount_views(r@)[k] == requested_mounts(mounts@)[k],
        decreases mounts@.len() - i,
    {
        let m: &VhostUserFsMount = &mounts[i];
        let ghost before = mount_views(r@);
        r.push(
            LaunchVhostUserFsMount {
                tag: m.tag.clone(),
                mount: m.mountpoint.clone(),
                socket: m.socket.clone(),
                read_only: m.read_only,
            },
        );
        proof {
            assert forall|k: int| 0 <= k < i + 1 implies #[trigger] mount_views(r@)[k]
                == requested_mounts(mounts@)[k] by {
                if k < i {
                    assert(mount_views(r@)[k] == before[k]);
                }
            }
        }
        i = i + 1;
    }
    assert(mount_views(r@) =~= requested_mounts(mounts@));
    r
}

/// The record of the launch that is asked for, with the given home.
pub fn launch_metadata_for_parts(config: &RunConfig, home: String, outside: Option<String>) -> (m:
    LaunchMetadata)
    ensures
        records_shares(m, home@, text::opt_string(outside), config.no_host_shares),
        m@ == requested_launch(
            home@,
            config.no_host_shares,
            requested_mounts(config.vhost_user_fs@),
        ),
        text::views(m.owner_args@) == config::owner_args(*config),
        mount_views(m.vhost_user_fs@) == requested_mounts(config.vhost_user_fs@),
{
    launch_record(
        home,
        outside,
        config.no_host_shares,
        config::owner_restart_args(config),
        record_mounts(&config.vhost_user_fs),
    )
}

/// Whether a record is that of the launch that is asked for.
pub open spec fn is_requested_launch(m: LaunchMetadata, config: RunConfig, home: Seq<char>) -> bool {
    &&& records_shares(m, home, outside_home(config.cwd@, home), config.no_host_shares)
    &&& m@ == requested_launch(
        home,
        config.no_host_shares,
        requested_mounts(config.vhost_user_fs@),
    )
    &&& text::views(m.owner_args@) == config::owner_args(config)
}

/// The record of the launch that is asked for. `own_home` is the user's own home, where
/// the host knows one.
pub fn launch_metadata_for_config(config: &RunConfig, own_home: Option<&str>) -> (r: Result<
    LaunchMetadata,
    NoHome,
>)
    ensures
        match home_for(config.cwd@, text::opt_view(own_home)) {
            None => r is Err,
            Some(home) => r matches Ok(m) && is_requested_launch(m, *config, home),
        },
{
    let home: String = match host_home_for_cwd(config.cwd.as_str(), own_home) {
        Ok(home) => home,
        Err(e) => return Err(e),
    };
    let outside: Option<String> = outside_home_cwd(config.cwd.as_str(), home.as_str());
    Ok(launch_metadata_for_parts(config, home, outside))
}

/// The version of records whose snapshots are still imported, though they are not restored
/// by default.
pub const IMPORTED_LAUNCH_VERSION: u32 = 1;

/// The launch that the snapshot of an import is held against: what is asked for, with the
/// present version or, where the snapshot's record has it, the version that is still
/// imported.
pub open spec fn import_launch(record: LaunchRead, home: Seq<char>, no_host_shares: bool) -> LaunchView {
    match record {
        LaunchRead::Found(m) => LaunchView {
            version: if m.version == IMPORTED_LAUNCH_VERSION {
                IMPORTED_LAUNCH_VERSION
            } else {
                LAUNCH_METADATA_VERSION
            },
            ..requested_launch(home, no_host_shares, Seq::empty())
        },
        _ => requested_launch(home, no_host_shares, Seq::empty()),
    }
}

/// Says why an imported snapshot cannot be restored for a user in a working directory.
pub fn snapshot_shares_incompatibility_for_import(
    record: &LaunchRead,
    cwd: &str,
    no_host_shares: bool,
    own_home: Option<&str>,
) -> (r: Result<Option<String>, NoHome>)
    ensures
        match home_for(cwd@, text::opt_view(own_home)) {
            None => r is Err,
            Some(home) => r matches Ok(reason) && text::opt_string(reason) == incompatibility(
                *record,
                import_launch(*record, home, no_host_shares),
            ),
        },
{
    let home: String = match host_home_for_cwd(cwd, own_home) {
        Ok(home) => home,
        Err(e) => return Err(e),
    };
    let outside: Option<String> = outside_home_cwd(cwd, home.as_str());
    let mut current: LaunchMetadata = launch_record(
        home,
        outside,
        no_host_shares,
        Vec::new(),
        Vec::new(),
    );
    assert(current@.mounts =~= Seq::<MountView>::empty());
    match record {
        LaunchRead::Found(m) => {
            if m.version == IMPORTED_LAUNCH_VERSION {
                current.version = IMPORTED_LAUNCH_VERSION;
            }
        },
        _ => {},
    }
    Ok(snapshot_launch_incompatibility(record, &current))
}

/// An import accepts a snapshot exactly when its record has the present version or the one
/// that is still imported, and it was launched with the present cache policy, with the
/// shares that the server has and without mounts.
pub proof fn lemma_import_compares_shares(m: LaunchMetadata, home: Seq<char>, no_host_shares: bool)
    ensures
        incompatibility(
            LaunchRead::Found(m),
            import_launch(LaunchRead::Found(m), home, no_host_shares),
        ) is None <==> {
            &&& m.version == IMPORTED_LAUNCH_VERSION || m.version == LAUNCH_METADATA_VERSION
            &&& m.compatibility.host_share_cache.dax
            &&& m.shares.no_host_shares == no_host_shares
            &&& same_opt_path(
                text::opt_string(m.shares.host_home),
                if no_host_shares {
                    None
                } else {
                    Some(home)
                },
            )
            &&& m.vhost_user_fs@.len() == 0
        },
{
}

/// Why a running VM cannot be used for a launch.
#[derive(Debug, PartialEq, Eq)]
pub enum RunningVmError {
    Incompatible { reason: String, path: String },
    NoRecord { path: String },
    Unreadable { path: String, error: String },
}

impl RunningVmError {
    /// The message shown to the user.
    pub open spec fn text(self) -> Seq<char> {
        match self {
            RunningVmError::Incompatible { reason, path } => "running VM launch metadata is incompatible ("@
                + reason@ + "): "@ + path@,
            RunningVmError::NoRecord { path } => "running VM has no launch metadata: "@ + path@,
            RunningVmError::Unreadable { path, error } => "read "@ + path@ + ": "@ + error@,
        }
    }

    /// The message shown to the user.
    pub fn message(&self) -> (m: String)
        ensures
            m@ == self.text(),
    {
        match self {
            RunningVmError::Incompatible { reason, path } => {
                let mut m: String = "running VM launch metadata is incompatible (".to_owned();
                m.append(reason.as_str());
                m.append("): ");
                m.append(path.as_str());
                m
            },
            RunningVmError::NoRecord { path } => {
                let mut m: String = "running VM has no launch metadata: ".to_owned();
                m.append(path.as_str());
                m
            },
            RunningVmError::Unreadable { path, error } => {
                let mut m: String = "read ".to_owned();
                m.append(path.as_str());
                m.append(": ");
                m.append(error.as_str());
                m
            },
        }
    }
}

/// Checks that a running VM can be used for the launch that is asked for. `record` is
/// what came of reading the running VM's record.
pub fn validate_runtime_share_compatibility(
    layout: &paths::Layout,
    record: &LaunchRead,
    current: &LaunchMetadata,
) -> (r: Result<(), RunningVmError>)
    ensures
        ({
            let file = paths::joined(layout.run_dir@, snapshots::LAUNCH_METADATA@);
            match *record {
                LaunchRead::Found(m) => if launches_match(m@, current@) {
                    r is Ok
                } else {
                    r matches Err(RunningVmError::Incompatible { reason, path }) && reason@
                        == mismatch_text(m@, current@) && path@ == file
                },
                LaunchRead::Missing => r matches Err(RunningVmError::NoRecord { path }) && path@
                    == file,
                LaunchRead::Failed(e) => r matches Err(RunningVmError::Unreadable { path, error })
                    && path@ == file && error@ == e@,
            }
        }),
{
    let path: String = paths::join(layout.run_dir.as_str(), snapshots::LAUNCH_METADATA);
    match record {
        LaunchRead::Found(m) => if launch_metadata_matches_ignoring_cwd(m, current) {
            Ok(())
        } else {
            Err(RunningVmError::Incompatible { reason: describe_launch_mismatch(m, current), path })
        },
        LaunchRead::Missing => Err(RunningVmError::NoRecord { path }),
        LaunchRead::Failed(e) => Err(RunningVmError::Unreadable { path, error: e.clone() }),
    }
}

/// A mount as the guest is told of it.
pub open spec fn guest_mount(m: MountView) -> Seq<char> {
    m.tag + ":"@ + m.mount + ":"@ + (if m.read_only {
        "ro"@
    } else {
        "rw"@
    })
}

/// Mounts as the guest is told of them, in the order that they were asked for.
pub open spec fn guest_mounts(mounts: Seq<MountView>) -> Seq<char> {
    text::joined(Seq::new(mounts.len(), |i: int| guest_mount(mounts[i])), ";"@)
}

/// Tells the guest of the mounts that are asked for.
pub fn vhost_user_fs_guest_env(mounts: &Vec<VhostUserFsMount>) -> (s: String)
    ensures
        s@ == guest_mounts(requested_mounts(mounts@)),
{
    let ghost all = requested_mounts(mounts@);
    let mut parts: Vec<String> = Vec::new();
    let mut i: usize = 0;
    while i < mounts.len()
        invariant
            i <= mounts@.len(),
            all == requested_mounts(mounts@),
            parts@.len() == i,
            forall|k: int| 0 <= k < i ==> (#[trigger] parts@[k])@ == guest_mount(all[k]),
        decreases mounts@.len() - i,
    {
        let mut part: String = mounts[i].tag.clone();
        part.append(":");
        part.append(mounts[i].mountpoint.as_str());
        part.append(":");
        if mounts[i].read_only {
            part.append("ro");
        } else {
            part.append("rw");
        }
        parts.push(part);
        i = i + 1;
    }
    assert(text::views(parts@) =~= Seq::new(all.len(), |k: int| guest_mount(all[k])));
    text::join(&parts, ";")
}

// ---------------------------------------------------------------------------
// Laws of launches
// ---------------------------------------------------------------------------

/// What two launches have to have in common: the version of their records, how shares are
/// cached, whether there are any, the home, and every mount with its tag, place, socket
/// and whether it can be written.
pub proof fn lemma_what_launches_share(a: LaunchView, b: LaunchView)
    ensures
        launches_match(a, b) <==> {
            &&& a.version == b.version
            &&& a.dax == b.dax
            &&& a.no_host_shares == b.no_host_shares
            &&& a.host_home is Some <==> b.host_home is Some
            &&& a.host_home is Some && b.host_home is Some ==> paths::components(
                a.host_home->Some_0,
            ) == paths::components(b.host_home->Some_0)
            &&& a.mounts.len() == b.mounts.len()
            &&& forall|i: int|
                0 <= i < a.mounts.len() ==> (#[trigger] a.mounts[i]).tag == b.mounts[i].tag
                    && a.mounts[i].mount == b.mounts[i].mount && paths::components(
                    a.mounts[i].socket,
                ) == paths::components(b.mounts[i].socket) && a.mounts[i].read_only
                    == b.mounts[i].read_only
        },
{
    if launches_match(a, b) {
        assert forall|i: int| 0 <= i < a.mounts.len() implies (#[trigger] a.mounts[i]).tag
            == b.mounts[i].tag && a.mounts[i].mount == b.mounts[i].mount && paths::components(
            a.mounts[i].socket,
        ) == paths::components(b.mounts[i].socket) && a.mounts[i].read_only
            == b.mounts[i].read_only by {
            assert(same_mount(a.mounts[i], b.mounts[i]));
        }
    }
}

/// A mismatch is described by what differs: one part for each difference, none where two
/// launches match, and the order of mounts does not count.
pub proof fn lemma_described_differences(a: LaunchView, b: LaunchView)
    ensures
        launches_match(a, b) ==> differences(a, b).len() == 0,
        differences(a, b).len() == 0 <==> {
            &&& a.no_host_shares == b.no_host_shares
            &&& a.dax == b.dax
            &&& same_opt_path(a.host_home, b.host_home)
            &&& mount_keys(a.mounts).to_multiset() == mount_keys(b.mounts).to_multiset()
        },
        differences(a, b).len() == (if a.no_host_shares != b.no_host_shares {
            1int
        } else {
            0int
        }) + (if a.dax != b.dax {
            1int
        } else {
            0int
        }) + (if same_opt_path(a.host_home, b.host_home) {
            0int
        } else {
            1int
        }) + (if mount_keys(a.mounts).to_multiset() == mount_keys(b.mounts).to_multiset() {
            0int
        } else {
            1int
        }),
        a.no_host_shares != b.no_host_shares ==> differences(a, b)[0] == (if a.no_host_shares {
            "host-shares"@ + ": snapshot="@ + "disabled"@ + " current="@ + "enabled"@
        } else {
            "host-shares"@ + ": snapshot="@ + "enabled"@ + " current="@ + "disabled"@
        }),
{
    lemma_normalized_decides_permutation(a.mounts, b.mounts);
    if launches_match(a, b) {
        assert forall|i: int| 0 <= i < a.mounts.len() implies mount_key(#[trigger] a.mounts[i])
            == mount_key(b.mounts[i]) by {
            assert(same_mount(a.mounts[i], b.mounts[i]));
        }
        assert(mount_keys(a.mounts) =~= mount_keys(b.mounts));
    }
}

/// A snapshot can be restored as launched now exactly where its record was found and the
/// launches match; a record that is missing or cannot be read is never compatible.
pub proof fn lemma_when_a_launch_is_compatible(record: LaunchRead, current: LaunchView)
    ensures
        incompatibility(record, current) is None <==> (record matches LaunchRead::Found(m)
            && launches_match(m@, current)),
{
}

/// A working directory below a home of `/Users` belongs to that home, whoever asks; any
/// other belongs to the user's own.
#[verifier::spinoff_prover]
#[verifier::rlimit(40)]
pub proof fn lemma_home_of_a_directory(cwd: Seq<char>, own: Option<Seq<char>>)
    ensures
        ({
            let parts = paths::components(cwd);
            if paths::lies_in(cwd, "/Users"@) && parts.len() >= 3 {
                home_for(cwd, own) matches Some(home) && paths::components(home) == (
                if paths::is_name(parts[2]) {
                    parts.take(3)
                } else {
                    paths::components(home)
                }) && paths::lies_in(home, "/Users"@)
            } else {
                home_for(cwd, own) == own
            }
        }),
{
    reveal_strlit("/Users");
    reveal_strlit("Users");
    let parts = paths::components(cwd);
    let users = "/Users"@;
    let root = seq!['/'];
    let name = "Users"@;
    assert(users =~= root + name);
    assert(!name.contains('/'));
    assert(name.len() == 5);
    paths::lemma_name_in_directory(root, name);
    assert(paths::joined(root, name) == users);
    paths::lemma_components_are_parts(root);
    assert(paths::components(root) =~= seq![root]) by {
        let none = Seq::<char>::empty();
        assert(root =~= none + root + none);
        text::lemma_split_of_two(none, none, '/');
        text::lemma_split_of_one(none, '/');
        assert(text::split_on(root, '/') =~= seq![none, none]);
        paths::lemma_rendered(seq![root]);
        assert(paths::rendered(seq![root]) =~= root);
    }
    assert(paths::components(users) =~= seq![root, name]);
    paths::lemma_relative(cwd, users);
    if parts.len() >= 3 {
        if parts[0] == root && parts[1] == name {
            assert(parts =~= paths::components(users) + parts.skip(2));
        }
        if paths::lies_in(cwd, users) {
            let rest = choose|rest: Seq<Seq<char>>|
                parts == #[trigger] (paths::components(users) + rest);
            assert(parts[0] == root && parts[1] == name);
            paths::lemma_components_are_parts(cwd);
            let third = parts[2];
            assert(third.len() > 0 && third != root && !third.contains('/'));
            assert(!paths::is_absolute(third)) by {
                if paths::is_absolute(third) {
                    assert(third.contains(third[0]));
                }
            }
            paths::lemma_joined_lies_in(users, third);
            if paths::is_name(third) {
                paths::lemma_name_in_directory(users, third);
                assert(parts.take(3) =~= seq![root, name].push(third));
            }
        }
    }
}

/// A directory outside the home is one that no way leads to from the home.
pub proof fn lemma_outside_home(cwd: Seq<char>, home: Seq<char>)
    ensures
        outside_home(cwd, home) == (if exists|rest: Seq<Seq<char>>|
            paths::components(cwd) == #[trigger] (paths::components(home) + rest) {
            None
        } else {
            Some(cwd)
        }),
{
    paths::lemma_relative(cwd, home);
}

/// Every mount is recorded with its tag, place, socket and whether it can be written, in
/// its order.
pub proof fn lemma_requested_mounts(mounts: Seq<VhostUserFsMount>)
    ensures
        requested_mounts(mounts).len() == mounts.len(),
        forall|i: int|
            0 <= i < mounts.len() ==> (#[trigger] requested_mounts(mounts)[i]) == (MountView {
                tag: mounts[i].tag@,
                mount: mounts[i].mountpoint@,
                socket: mounts[i].socket@,
                read_only: mounts[i].read_only,
            }),
{
}

/// The guest is told of every mount, in its order: its tag, its place and whether it can
/// be written.
pub proof fn lemma_guest_is_told_of_every_mount(
    a: Seq<MountView>,
    b: Seq<MountView>,
    m: MountView,
)
    ensures
        a.len() > 0 && b.len() > 0 ==> guest_mounts(a + b) == guest_mounts(a) + ";"@ + guest_mounts(
            b,
        ),
        m.read_only ==> guest_mounts(seq![m]) == m.tag + ":"@ + m.mount + ":"@ + "ro"@,
        !m.read_only ==> guest_mounts(seq![m]) == m.tag + ":"@ + m.mount + ":"@ + "rw"@,
        guest_mounts(Seq::empty()) == Seq::<char>::empty(),
{
    let word = |s: Seq<MountView>| Seq::new(s.len(), |i: int| guest_mount(s[i]));
    assert(word(a + b) =~= word(a) + word(b));
    assert(word(seq![m]) =~= seq![guest_mount(m)]);
    assert(word(Seq::empty()) =~= Seq::<Seq<char>>::empty());
    text::lemma_joined(word(a), word(b), ";"@, guest_mount(m));
    assert(Seq::new(a.len(), |i: int| guest_mount(a[i])) =~= word(a));
    assert(Seq::new(b.len(), |i: int| guest_mount(b[i])) =~= word(b));
    assert(Seq::new((a + b).len(), |i: int| guest_mount((a + b)[i])) =~= word(a + b));
    assert(Seq::new(seq![m].len(), |i: int| guest_mount(seq![m][i])) =~= word(seq![m]));
    assert(Seq::new(0, |i: int| guest_mount(Seq::<MountView>::empty()[i])) =~= word(Seq::empty()));
}

/// A mismatch shows every mount of both sides: tag, place, socket and whether it can be
/// written.
pub proof fn lemma_shown_mounts(a: Seq<MountView>, b: Seq<MountView>, m: MountView)
    ensures
        a.len() > 0 && b.len() > 0 ==> mounts_words(a + b) == mounts_words(a) + ";"@ + mounts_words(
            b,
        ),
        m.read_only ==> mounts_words(seq![m]) == m.tag + ":"@ + m.mount + ":"@ + m.socket + ":"@
            + "ro"@,
        !m.read_only ==> mounts_words(seq![m]) == m.tag + ":"@ + m.mount + ":"@ + m.socket + ":"@
            + "rw"@,
        mounts_words(Seq::empty()) == Seq::<char>::empty(),
{
    let word = |s: Seq<MountView>| Seq::new(s.len(), |i: int| mount_words(s[i]));
    assert(word(a + b) =~= word(a) + word(b));
    assert(word(seq![m]) =~= seq![mount_words(m)]);
    assert(word(Seq::empty()) =~= Seq::<Seq<char>>::empty());
    text::lemma_joined(word(a), word(b), ";"@, mount_words(m));
    assert(Seq::new(a.len(), |i: int| mount_words(a[i])) =~= word(a));
    assert(Seq::new(b.len(), |i: int| mount_words(b[i])) =~= word(b));
    assert(Seq::new((a + b).len(), |i: int| mount_words((a + b)[i])) =~= word(a + b));
    assert(Seq::new(seq![m].len(), |i: int| mount_words(seq![m][i])) =~= word(seq![m]));
    assert(Seq::new(0, |i: int| mount_words(Seq::<MountView>::empty()[i])) =~= word(Seq::empty()));
}

/// What a launch that is asked for records: the current version, cached shares, the home
/// exactly where there are shares, and the mounts as they are asked for.
pub proof fn lemma_requested_launch(
    home: Seq<char>,
    no_host_shares: bool,
    mounts: Seq<MountView>,
    m: LaunchMetadata,
    outside: Option<Seq<char>>,
)
    ensures
        requested_launch(home, no_host_shares, mounts).version == 2,
        requested_launch(home, no_host_shares, mounts).dax,
        requested_launch(home, no_host_shares, mounts).no_host_shares == no_host_shares,
        requested_launch(home, true, mounts).host_home is None,
        requested_launch(home, false, mounts).host_home == Some(home),
        requested_launch(home, no_host_shares, mounts).mounts == mounts,
        records_shares(m, home, outside, true) ==> m.shares.host_home is None
            && m.shares.outside_home_cwd is None,
        records_shares(m, home, outside, false) ==> text::opt_string(m.shares.host_home) == Some(
            home,
        ) && text::opt_string(m.shares.outside_home_cwd) == outside,
        records_shares(m, home, outside, no_host_shares) ==> m.version == 2
            && m.shares.no_host_shares == no_host_shares,
{
}

/// Mounts are put in order by their tags, then by their places, then by their sockets, and
/// at last those that can be written before those that cannot.
pub proof fn lemma_order_of_mounts(a: MountView, b: MountView)
    ensures
        text::text_order(a.tag, b.tag) < 0 ==> mount_order(a, b) < 0,
        a.tag == b.tag && text::text_order(a.mount, b.mount) < 0 ==> mount_order(a, b) < 0,
        a.tag == b.tag && a.mount == b.mount && paths::components(a.socket) == paths::components(
            b.socket,
        ) && !a.read_only && b.read_only ==> mount_order(a, b) < 0,
        a.tag == b.tag && a.mount == b.mount && components_order(
            paths::components(a.socket),
            paths::components(b.socket),
        ) < 0 ==> mount_order(a, b) < 0,
        mount_order(a, b) == -mount_order(b, a),
{
    lemma_mount_order(a, b, a);
    text::lemma_text_order(a.tag, b.tag, a.tag);
    text::lemma_text_order(a.mount, b.mount, a.mount);
    lemma_components_order(
        paths::components(a.socket),
        paths::components(b.socket),
        paths::components(a.socket),
    );
}

/// A mismatch is described by all of its differences, one after the other.
pub proof fn lemma_mismatch_text(a: LaunchView, b: LaunchView)
    ensures
        differences(a, b).len() == 0 ==> mismatch_text(a, b)
            == "share_mismatch: launch metadata differs only in ignored fields"@,
        differences(a, b).len() > 0 ==> mismatch_text(a, b) == "share_mismatch: "@ + text::joined(
            differences(a, b),
            "; "@,
        ),
        a.no_host_shares == b.no_host_shares && a.dax != b.dax ==> differences(a, b)[0] == (
        if a.dax {
            "host-share-cache"@ + ": snapshot="@ + "dax"@ + " current="@ + "nodax"@
        } else {
            "host-share-cache"@ + ": snapshot="@ + "nodax"@ + " current="@ + "dax"@
        }),
        a.no_host_shares == b.no_host_shares && a.dax == b.dax && a.host_home is Some
            && b.host_home is None ==> differences(a, b)[0] == "home"@ + ": snapshot="@
            + a.host_home->Some_0 + " current="@ + "<absent>"@,
{
}

/// A launch that is asked for records what the config asks for: its shares, its home, its
/// working directory where that lies outside the home, its mounts and its owner's
/// arguments.
pub proof fn lemma_is_requested_launch(m: LaunchMetadata, config: RunConfig, home: Seq<char>)
    requires
        is_requested_launch(m, config, home),
    ensures
        m.version == 2,
        m.compatibility.host_share_cache.dax,
        m.shares.no_host_shares == config.no_host_shares,
        config.no_host_shares ==> m.shares.host_home is None && m.shares.outside_home_cwd is None,
        !config.no_host_shares ==> text::opt_string(m.shares.host_home) == Some(home),
        !config.no_host_shares ==> (m.shares.outside_home_cwd is None <==> exists|
            rest: Seq<Seq<char>>,
        |
            paths::components(config.cwd@) == #[trigger] (paths::components(home) + rest)),
        m.shares.outside_home_cwd matches Some(dir) ==> dir@ == config.cwd@,
        mount_views(m.vhost_user_fs@) == requested_mounts(config.vhost_user_fs@),
        text::views(m.owner_args@) == config::owner_args(config),
{
    paths::lemma_relative(config.cwd@, home);
}

/// Parts of paths are ordered by their kind, the root before a point, that before two and
/// those before names, and names alphabetically.
pub proof fn lemma_component_order_by_kind(name: Seq<char>, other: Seq<char>)
    requires
        paths::is_name(name),
        paths::is_name(other),
    ensures
        component_order(seq!['/'], seq!['.']) < 0,
        component_order(seq!['.'], seq!['.', '.']) < 0,
        component_order(seq!['.', '.'], name) < 0,
        component_order(seq!['/'], name) < 0,
        component_order(name, other) == text::text_order(name, other),
{
    assert(seq!['/'][0] != seq!['.'][0]);
    assert(seq!['.'].len() != seq!['.', '.'].len());
    assert(seq!['/'].len() != seq!['.', '.'].len());
}

/// Paths are ordered by the first part in which they differ, and a path comes before those
/// that go on from it.
pub proof fn lemma_paths_in_order(
    common: Seq<Seq<char>>,
    a: Seq<char>,
    b: Seq<char>,
    x: Seq<Seq<char>>,
    y: Seq<Seq<char>>,
)
    ensures
        component_order(a, b) != 0 ==> components_order(common + (seq![a] + x), common + (seq![b]
            + y)) == component_order(a, b),
        components_order(common, common + (seq![a] + x)) < 0,
        components_order(common, common) == 0,
    decreases common.len(),
{
    let p = common + (seq![a] + x);
    let q = common + (seq![b] + y);
    if common.len() == 0 {
        assert(p =~= seq![a] + x);
        assert(q =~= seq![b] + y);
        assert(p[0] == a && q[0] == b);
    } else {
        let rest = common.skip(1);
        lemma_paths_in_order(rest, a, b, x, y);
        lemma_component_order(common[0], common[0], common[0]);
        assert(p.skip(1) =~= rest + (seq![a] + x));
        assert(q.skip(1) =~= rest + (seq![b] + y));
        assert(p[0] == common[0] && q[0] == common[0]);
    }
}

/// Where homes or mounts differ and nothing else does, that one difference is described,
/// with what there is on both sides.
pub proof fn lemma_described_homes_and_mounts(a: LaunchView, b: LaunchView)
    requires
        a.no_host_shares == b.no_host_shares,
        a.dax == b.dax,
    ensures
        !same_opt_path(a.host_home, b.host_home) ==> differences(a, b)[0] == "home"@
            + ": snapshot="@ + (match a.host_home {
            Some(p) => p,
            None => "<absent>"@,
        }) + " current="@ + (match b.host_home {
            Some(p) => p,
            None => "<absent>"@,
        }),
        same_opt_path(a.host_home, b.host_home) && mount_keys(a.mounts).to_multiset()
            != mount_keys(b.mounts).to_multiset() ==> differences(a, b) == seq![
            "vhost-user-fs"@ + ": snapshot="@ + mounts_words(normalized(a.mounts)) + " current="@
                + mounts_words(normalized(b.mounts)),
        ],
{
    lemma_normalized_decides_permutation(a.mounts, b.mounts);
    if same_opt_path(a.host_home, b.host_home) && mount_keys(a.mounts).to_multiset() != mount_keys(
        b.mounts,
    ).to_multiset() {
        assert(differences(a, b) =~= seq![
            "vhost-user-fs"@ + ": snapshot="@ + mounts_words(normalized(a.mounts)) + " current="@
                + mounts_words(normalized(b.mounts)),
        ]);
    }
}

/// What is compared of a record: its version, its cache, its shares, its home, and of each
/// mount all that it is.
pub proof fn lemma_view_of_a_record(m: LaunchMetadata)
    ensures
        m@.version == m.version,
        m@.dax == m.compatibility.host_share_cache.dax,
        m@.no_host_shares == m.shares.no_host_shares,
        m@.host_home is Some <==> m.shares.host_home is Some,
        m.shares.host_home matches Some(home) ==> m@.host_home == Some(home@),
        m@.mounts.len() == m.vhost_user_fs@.len(),
        forall|i: int|
            0 <= i < m.vhost_user_fs@.len() ==> #[trigger] m@.mounts[i] == (MountView {
                tag: m.vhost_user_fs@[i].tag@,
                mount: m.vhost_user_fs@[i].mount@,
                socket: m.vhost_user_fs@[i].socket@,
                read_only: m.vhost_user_fs@[i].read_only,
            }),
{
}

} // verus!
