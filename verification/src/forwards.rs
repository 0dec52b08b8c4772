//! Port forwards: how one is written, and which ones the guest can ask for.
use vstd::prelude::*;

use crate::text;

verus! {

/// A port of the host whose connections go to a port of the guest.
#[derive(Clone, Debug, PartialEq, Eq)]
pub struct PortForward {
    pub listen_host: String,
    pub listen_port: u16,
    pub guest_host: String,
    pub guest_port: u16,
}

/// The text of a forward, as the command line takes it.
pub open spec fn spec_text(
    listen_host: Seq<char>,
    listen_port: u16,
    guest_host: Seq<char>,
    guest_port: u16,
) -> Seq<char> {
    listen_host + ":"@ + text::dec(listen_port as nat) + ":"@ + guest_host + ":"@ + text::dec(
        guest_port as nat,
    )
}

/// Writes a forward as the command line takes it.
pub fn forward_spec(forward: &PortForward) -> (s: String)
    ensures
        s@ == spec_text(
            forward.listen_host@,
            forward.listen_port,
            forward.guest_host@,
            forward.guest_port,
        ),
{
    let mut s: String = forward.listen_host.clone();
    s.append(":");
    text::push_dec(&mut s, forward.listen_port as u128);
    s.append(":");
    s.append(forward.guest_host.as_str());
    s.append(":");
    text::push_dec(&mut s, forward.guest_port as u128);
    s
}

/// Whether a character ends the authority of a URL.
pub open spec fn ends_authority(c: char) -> bool {
    c == '/' || c == '?' || c == '#'
}

/// The authority at the start of a text: everything before a path, query or fragment.
pub open spec fn authority(s: Seq<char>) -> Seq<char>
    decreases s.len(),
{
    if s.len() == 0 || ends_authority(s[0]) {
        Seq::empty()
    } else {
        seq![s[0]] + authority(s.skip(1))
    }
}

fn authority_of<'a>(s: &'a str) -> (r: &'a str)
    ensures
        r@ == authority(s@),
{
    let v: Vec<char> = text::chars(s);
    let mut i: usize = 0;
    assert(s@.take(0) + authority(s@.skip(0)) =~= authority(s@)) by {
        assert(s@.skip(0) =~= s@);
    }
    while i < v.len() && v[i] != '/' && v[i] != '?' && v[i] != '#'
        invariant
            i <= v@.len(),
            v@ == s@,
            s@.take(i as int) + authority(s@.skip(i as int)) == authority(s@),
        decreases v@.len() - i,
    {
        proof {
            let rest = s@.skip(i as int);
            assert(rest.skip(1) =~= s@.skip(i + 1));
            assert(s@.take(i as int) + (seq![rest[0]] + authority(s@.skip(i + 1))) =~= s@.take(
                i + 1,
            ) + authority(s@.skip(i + 1)));
        }
        i = i + 1;
    }
    assert(authority(s@.skip(i as int)) =~= Seq::<char>::empty());
    assert(s@.take(i as int) + Seq::<char>::empty() =~= s@.subrange(0, i as int));
    s.substring_char(0, i)
}

/// The loopback address and port that an authority names.
pub open spec fn loopback(authority: Seq<char>) -> Option<(Seq<char>, nat)> {
    if authority.contains('@') {
        None
    } else if authority.len() > 0 && authority[0] == '[' {
        match text::split_once_on(authority.skip(1), ']') {
            Some((host, tail)) => if host == "::1"@ && tail.len() > 0 && tail[0] == ':' {
                match text::parsed(tail.skip(1), u16::MAX as nat) {
                    Some(port) => Some(("::1"@, port)),
                    None => None,
                }
            } else {
                None
            },
            None => None,
        }
    } else {
        match text::rsplit_once_on(authority, ':') {
            Some((host, port)) => if host == "localhost"@ || host == "127.0.0.1"@ {
                match text::parsed(port, u16::MAX as nat) {
                    Some(port) => Some(("127.0.0.1"@, port)),
                    None => None,
                }
            } else {
                None
            },
            None => None,
        }
    }
}

/// The loopback address and port that a web address names: `http` or `https`, a
/// loopback host without user information, and an explicit port.
pub open spec fn loopback_of_url(url: Seq<char>) -> Option<(Seq<char>, nat)> {
    match text::split_once_at(url, "://"@) {
        Some((scheme, rest)) => if scheme == "http"@ || scheme == "https"@ {
            loopback(authority(rest))
        } else {
            None
        },
        None => None,
    }
}

/// The host address and port to forward so that a web address of the guest's loopback
/// works on the host. The address family is kept.
pub fn localhost_url_forward(url: &str) -> (r: Option<(&'static str, u16)>)
    ensures
        match r {
            Some((host, port)) => loopback_of_url(url@) == Some((host@, port as nat)),
            None => loopback_of_url(url@) is None,
        },
{
    let (scheme, rest) = match text::split_once_str(url, "://") {
        Some(parts) => parts,
        None => return None,
    };
    if !text::same(scheme, "http") && !text::same(scheme, "https") {
        return None;
    }
    let authority = authority_of(rest);
    if text::contains_char(authority, '@') {
        return None;
    }
    let n: usize = authority.unicode_len();
    if n > 0 && authority.get_char(0) == '[' {
        assert(authority@.subrange(1, n as int) =~= authority@.skip(1));
        let inner = authority.substring_char(1, n);
        let (host, tail) = match text::split_once(inner, ']') {
            Some(parts) => parts,
            None => return None,
        };
        let m: usize = tail.unicode_len();
        if !text::same(host, "::1") || m == 0 || tail.get_char(0) != ':' {
            return None;
        }
        assert(tail@.subrange(1, m as int) =~= tail@.skip(1));
        return match text::parse(tail.substring_char(1, m), 65535) {
            Some(port) => Some(("::1", port as u16)),
            None => None,
        };
    }
    let (host, port) = match text::rsplit_once(authority, ':') {
        Some(parts) => parts,
        None => return None,
    };
    if !text::same(host, "localhost") && !text::same(host, "127.0.0.1") {
        return None;
    }
    match text::parse(port, 65535) {
        Some(port) => Some(("127.0.0.1", port as u16)),
        None => None,
    }
}

/// The first port that is forwarded without being asked for is above this one.
pub const LAST_PRIVILEGED_PORT: u16 = 1024;

/// The ports that are forwarded, each host address and port at most once.
pub struct ForwardedPorts {
    ports: Vec<(String, u16)>,
}

impl ForwardedPorts {
    /// The forwarded addresses and ports.
    pub closed spec fn set(self) -> Set<(Seq<char>, u16)> {
        Set::new(|k: (Seq<char>, u16)| exists|i: int|
            0 <= i < self.ports@.len() && (#[trigger] self.ports@[i]).0@ == k.0 && self.ports@[i].1
                == k.1)
    }

    /// No address and port is listed twice.
    pub closed spec fn wf(self) -> bool {
        forall|i: int, j: int|
            0 <= i < j < self.ports@.len() ==> !((#[trigger] self.ports@[i]).0@ == (
            #[trigger] self.ports@[j]).0@ && self.ports@[i].1 == self.ports@[j].1)
    }

    /// No port is forwarded.
    pub fn new() -> (r: Self)
        ensures
            r.wf(),
            r.set() == Set::<(Seq<char>, u16)>::empty(),
    {
        let r = ForwardedPorts { ports: Vec::new() };
        assert(r.set() =~= Set::<(Seq<char>, u16)>::empty());
        r
    }

    fn position(&self, host: &str, port: u16) -> (r: Option<usize>)
        ensures
            match r {
                Some(i) => i < self.ports@.len() && self.ports@[i as int].0@ == host@
                    && self.ports@[i as int].1 == port,
                None => !self.set().contains((host@, port)),
            },
    {
        let mut i: usize = 0;
        while i < self.ports.len()
            invariant
                i <= self.ports@.len(),
                forall|j: int|
                    0 <= j < i ==> !((#[trigger] self.ports@[j]).0@ == host@ && self.ports@[j].1
                        == port),
            decreases self.ports@.len() - i,
        {
            if text::same(&self.ports[i].0, host) && self.ports[i].1 == port {
                return Some(i);
            }
            i = i + 1;
        }
        None
    }

    /// Whether an address and port is forwarded.
    pub fn contains(&self, host: &str, port: u16) -> (r: bool)
        ensures
            r == self.set().contains((host@, port)),
    {
        match self.position(host, port) {
            Some(i) => {
                assert(self.ports@[i as int].0@ == host@);
                true
            },
            None => false,
        }
    }

    /// Records an address and port as forwarded.
    pub fn insert(&mut self, host: &str, port: u16)
        requires
            old(self).wf(),
        ensures
            final(self).wf(),
            final(self).set() == old(self).set().insert((host@, port)),
    {
        if self.contains(host, port) {
            assert(self.set() =~= self.set().insert((host@, port)));
            return;
        }
        let ghost before = self.ports@;
        self.ports.push((host.to_owned(), port));
        proof {
            assert(self.ports@.last().0@ == host@);
            assert forall|k: (Seq<char>, u16)|
                self.set().contains(k) <==> old(self).set().insert((host@, port)).contains(k) by {
                if old(self).set().contains(k) {
                    let i = choose|i: int|
                        0 <= i < before.len() && (#[trigger] before[i]).0@ == k.0 && before[i].1
                            == k.1;
                    assert(self.ports@[i] == before[i]);
                }
                if self.set().contains(k) {
                    let i = choose|i: int|
                        0 <= i < self.ports@.len() && (#[trigger] self.ports@[i]).0@ == k.0
                            && self.ports@[i].1 == k.1;
                    if i < before.len() {
                        assert(before[i] == self.ports@[i]);
                        assert(old(self).set().contains(k));
                    }
                }
                if k == (host@, port) {
                    assert(self.ports@[before.len() as int].0@ == k.0);
                }
            }
            assert(self.set() =~= old(self).set().insert((host@, port)));
        }
    }

    /// Records that an address and port is no longer forwarded.
    pub fn remove(&mut self, host: &str, port: u16)
        requires
            old(self).wf(),
        ensures
            final(self).wf(),
            final(self).set() == old(self).set().remove((host@, port)),
    {
        let ghost before = self.ports@;
        match self.position(host, port) {
            None => {
                assert(self.set() =~= self.set().remove((host@, port)));
            },
            Some(at) => {
                let _ = self.ports.remove(at);
                proof {
                    let after = self.ports@;
                    assert(after =~= before.remove(at as int));
                    assert forall|k: (Seq<char>, u16)|
                        self.set().contains(k) <==> old(self).set().remove((host@, port)).contains(
                            k,
                        ) by {
                        if self.set().contains(k) {
                            let i = choose|i: int|
                                0 <= i < after.len() && (#[trigger] after[i]).0@ == k.0
                                    && after[i].1 == k.1;
                            let j = if i < at {
                                i
                            } else {
                                i + 1
                            };
                            assert(before[j] == after[i]);
                            assert(old(self).set().contains(k));
                            assert(before[at as int].0@ == host@);
                        }
                        if old(self).set().contains(k) && k != (host@, port) {
                            let j = choose|j: int|
                                0 <= j < before.len() && (#[trigger] before[j]).0@ == k.0
                                    && before[j].1 == k.1;
                            let i = if j < at {
                                j
                            } else {
                                j - 1
                            };
                            assert(after[i] == before[j]);
                        }
                    }
                    assert(self.set() =~= old(self).set().remove((host@, port)));
                    assert forall|i: int, j: int| 0 <= i < j < after.len() implies !((
                    #[trigger] after[i]).0@ == (#[trigger] after[j]).0@ && after[i].1
                        == after[j].1) by {
                        let x = if i < at {
                            i
                        } else {
                            i + 1
                        };
                        let y = if j < at {
                            j
                        } else {
                            j + 1
                        };
                        assert(before[x] == after[i] && before[y] == after[j]);
                    }
                }
            },
        }
    }

    /// Records a forward that the user asked for: one that could also be claimed, which is
    /// to an unprivileged port of the local address, is not claimed again.
    pub fn record(&mut self, forward: &PortForward)
        requires
            old(self).wf(),
        ensures
            final(self).wf(),
            final(self).set() == (if forward.listen_host@ == "127.0.0.1"@ && forward.listen_port
                > LAST_PRIVILEGED_PORT {
                old(self).set().insert((forward.listen_host@, forward.listen_port))
            } else {
                old(self).set()
            }),
    {
        if text::same(forward.listen_host.as_str(), "127.0.0.1") && forward.listen_port
            > LAST_PRIVILEGED_PORT {
            self.insert(forward.listen_host.as_str(), forward.listen_port);
        }
    }

    /// Claims a port that the guest listens on or opened in a browser. It is to be
    /// forwarded when it is not privileged and not forwarded yet; it is then recorded,
    /// and the returned forward leads to the same address and port of the guest.
    pub fn claim(&mut self, host: &str, port: u16) -> (r: Option<PortForward>)
        requires
            old(self).wf(),
        ensures
            final(self).wf(),
            r is Some <==> port > LAST_PRIVILEGED_PORT && !old(self).set().contains((host@, port)),
            r matches Some(f) ==> {
                &&& f.listen_host@ == host@ && f.guest_host@ == host@
                &&& f.listen_port == port && f.guest_port == port
                &&& final(self).set() == old(self).set().insert((host@, port))
            },
            r is None ==> final(self).set() == old(self).set(),
    {
        if port <= LAST_PRIVILEGED_PORT {
            return None;
        }
        if self.contains(host, port) {
            return None;
        }
        self.insert(host, port);
        Some(
            PortForward {
                listen_host: host.to_owned(),
                listen_port: port,
                guest_host: host.to_owned(),
                guest_port: port,
            },
        )
    }
}

/// Which of the ports that the guest listens on can be forwarded without being asked
/// for: those above the privileged ones, in their order.
pub fn unprivileged(ports: &Vec<u16>) -> (r: Vec<u16>)
    ensures
        r@ == ports@.filter(|p: u16| p > LAST_PRIVILEGED_PORT),
{
    let mut r: Vec<u16> = Vec::new();
    let ghost keep = |p: u16| p > LAST_PRIVILEGED_PORT;
    let mut i: usize = 0;
    proof {
        reveal(Seq::filter);
        assert(ports@.take(0).filter(keep) =~= Seq::<u16>::empty());
    }
    while i < ports.len()
        invariant
            i <= ports@.len(),
            keep == (|p: u16| p > LAST_PRIVILEGED_PORT),
            r@ == ports@.take(i as int).filter(keep),
        decreases ports@.len() - i,
    {
        proof {
            reveal(Seq::filter);
            assert(ports@.take(i + 1).drop_last() =~= ports@.take(i as int));
        }
        if ports[i] > LAST_PRIVILEGED_PORT {
            r.push(ports[i]);
        }
        i = i + 1;
    }
    assert(ports@.take(i as int) =~= ports@);
    r
}

// ---------------------------------------------------------------------------
// Laws of forwards and addresses
// ---------------------------------------------------------------------------

proof fn lemma_plain_number(n: nat, c: char)
    requires
        !text::is_digit(c),
    ensures
        !text::dec(n).contains(c),
        text::dec(n).len() > 0,
{
    text::lemma_dec_round_trip(n);
    let d = text::dec(n);
    assert forall|i: int| 0 <= i < d.len() implies d[i] != c by {
        assert(text::is_digit(d[i]));
    }
}

/// A forward is written as the four things that it is: where it listens, on which port,
/// and the host and the port in the guest.
#[verifier::spinoff_prover]
#[verifier::rlimit(40)]
pub proof fn lemma_forward_is_written_in_four(
    listen_host: Seq<char>,
    listen_port: u16,
    guest_host: Seq<char>,
    guest_port: u16,
)
    requires
        !listen_host.contains(':'),
        !guest_host.contains(':'),
    ensures
        text::split_on(spec_text(listen_host, listen_port, guest_host, guest_port), ':') == seq![
            listen_host,
            text::dec(listen_port as nat),
            guest_host,
            text::dec(guest_port as nat),
        ],
{
    reveal_strlit(":");
    assert(":"@ =~= seq![':']);
    let (p, q) = (text::dec(listen_port as nat), text::dec(guest_port as nat));
    lemma_plain_number(listen_port as nat, ':');
    lemma_plain_number(guest_port as nat, ':');
    let a = listen_host + seq![':'] + p;
    let b = a + seq![':'] + guest_host;
    let whole = b + seq![':'] + q;
    text::lemma_split_of_one(listen_host, ':');
    text::lemma_split_of_one(p, ':');
    text::lemma_split_of_one(guest_host, ':');
    text::lemma_split_of_one(q, ':');
    text::lemma_split_of_two(listen_host, p, ':');
    text::lemma_split_of_two(a, guest_host, ':');
    text::lemma_split_of_two(b, q, ':');
    assert(spec_text(listen_host, listen_port, guest_host, guest_port) =~= whole);
    assert(text::split_on(whole, ':') =~= seq![listen_host, p, guest_host, q]);
}

/// The authority of an address is what stands before the first slash, question mark or
/// hash sign, and is all of it where there is none.
pub proof fn lemma_authority(s: Seq<char>)
    ensures
        exists|rest: Seq<char>|
            s == #[trigger] (authority(s) + rest) && (rest.len() > 0 ==> rest[0] == '/' || rest[0]
                == '?' || rest[0] == '#'),
        !authority(s).contains('/'),
        !authority(s).contains('?'),
        !authority(s).contains('#'),
    decreases s.len(),
{
    if s.len() == 0 || ends_authority(s[0]) {
        assert(s =~= authority(s) + s);
    } else {
        let t = s.skip(1);
        lemma_authority(t);
        let rest = choose|rest: Seq<char>|
            t == #[trigger] (authority(t) + rest) && (rest.len() > 0 ==> rest[0] == '/' || rest[0]
                == '?' || rest[0] == '#');
        assert(authority(s) == seq![s[0]] + authority(t));
        assert(s =~= seq![s[0]] + t);
        assert(s =~= authority(s) + rest);
        assert forall|i: int| 0 <= i < authority(s).len() implies !ends_authority(
            #[trigger] authority(s)[i],
        ) by {
            if i > 0 {
                assert(authority(s)[i] == authority(t)[i - 1]);
                assert(authority(t).contains(authority(t)[i - 1]));
            }
        }
    }
}

proof fn lemma_authority_of(a: Seq<char>, rest: Seq<char>)
    requires
        !a.contains('/'),
        !a.contains('?'),
        !a.contains('#'),
        rest.len() > 0 ==> rest[0] == '/' || rest[0] == '?' || rest[0] == '#',
    ensures
        authority(a + rest) == a,
    decreases a.len(),
{
    if a.len() == 0 {
        assert(a + rest =~= rest);
        assert(authority(rest) =~= a);
    } else {
        let t = a.skip(1);
        assert(a.contains(a[0]));
        assert forall|c: char| t.contains(c) implies #[trigger] a.contains(c) by {
            let k = choose|k: int| 0 <= k < t.len() && t[k] == c;
            assert(a[k + 1] == c);
        }
        lemma_authority_of(t, rest);
        assert((a + rest).skip(1) =~= t + rest);
        assert((a + rest)[0] == a[0]);
        assert(authority(a + rest) =~= a);
    }
}

/// Every port of the local host is found in an authority that names it, under each of the
/// local host's names.
pub proof fn lemma_loopback(port: u16)
    ensures
        loopback("localhost"@ + seq![':'] + text::dec(port as nat)) == Some(
            ("127.0.0.1"@, port as nat),
        ),
        loopback("127.0.0.1"@ + seq![':'] + text::dec(port as nat)) == Some(
            ("127.0.0.1"@, port as nat),
        ),
        loopback(seq!['['] + "::1"@ + seq![']'] + (seq![':'] + text::dec(port as nat))) == Some(
            ("::1"@, port as nat),
        ),
{
    let p = text::dec(port as nat);
    lemma_plain_number(port as nat, ':');
    lemma_plain_number(port as nat, '@');
    text::lemma_parse_decimal(port as nat, u16::MAX as nat);
    lemma_loopback_named(p, port as nat);
    lemma_loopback_bracketed(p, port as nat);
}

#[verifier::spinoff_prover]
#[verifier::rlimit(40)]
proof fn lemma_loopback_named(p: Seq<char>, port: nat)
    requires
        !p.contains(':'),
        !p.contains('@'),
        text::parsed(p, u16::MAX as nat) == Some(port),
    ensures
        loopback("localhost"@ + seq![':'] + p) == Some(("127.0.0.1"@, port)),
        loopback("127.0.0.1"@ + seq![':'] + p) == Some(("127.0.0.1"@, port)),
{
    assert("localhost"@.len() > 0 && "localhost"@[0] != '[' && !"localhost"@.contains('@')) by {
        reveal_strlit("localhost");
    }
    assert("127.0.0.1"@.len() > 0 && "127.0.0.1"@[0] != '[' && !"127.0.0.1"@.contains('@')) by {
        reveal_strlit("127.0.0.1");
    }
    lemma_named_port("localhost"@, p);
    lemma_named_port("127.0.0.1"@, p);
}

#[verifier::spinoff_prover]
#[verifier::rlimit(40)]
proof fn lemma_loopback_bracketed(p: Seq<char>, port: nat)
    requires
        !p.contains('@'),
        text::parsed(p, u16::MAX as nat) == Some(port),
    ensures
        loopback(seq!['['] + "::1"@ + seq![']'] + (seq![':'] + p)) == Some(("::1"@, port)),
{
    assert(!"::1"@.contains('@') && !"::1"@.contains(']')) by {
        reveal_strlit("::1");
    }
    let tail = seq![':'] + p;
    let c = seq!['['] + "::1"@ + seq![']'] + tail;
    assert(c.skip(1) =~= "::1"@ + seq![']'] + tail);
    text::lemma_split_once_pair("::1"@, ']', tail);
    assert(tail.skip(1) =~= p);
    assert(!c.contains('@')) by {
        if c.contains('@') {
            let k = choose|k: int| 0 <= k < c.len() && c[k] == '@';
            let n = "::1"@.len() as int;
            if 1 <= k < 1 + n {
                assert("::1"@[k - 1] == '@');
            } else if k >= n + 3 {
                assert(p[k - n - 3] == '@');
            }
        }
    }
    assert(c[0] == '[');
}

proof fn lemma_named_port(host: Seq<char>, port: Seq<char>)
    requires
        host.len() > 0,
        host[0] != '[',
        !host.contains('@'),
        !port.contains('@'),
        !port.contains(':'),
    ensures
        text::rsplit_once_on(host + seq![':'] + port, ':') == Some((host, port)),
        !(host + seq![':'] + port).contains('@'),
        (host + seq![':'] + port)[0] != '[',
{
    let s = host + seq![':'] + port;
    let n = host.len() as int;
    lemma_rsplit_at_port(host, port);
    if s.contains('@') {
        let k = choose|k: int| 0 <= k < s.len() && s[k] == '@';
        if k < n {
            assert(host[k] == '@');
        } else if k > n {
            assert(port[k - n - 1] == '@');
        }
    }
}

proof fn lemma_rsplit_at_port(host: Seq<char>, port: Seq<char>)
    requires
        !port.contains(':'),
    ensures
        text::rsplit_once_on(host + seq![':'] + port, ':') == Some((host, port)),
{
    let s = host + seq![':'] + port;
    let n = host.len() as int;
    assert forall|j: int| n < j < s.len() implies s[j] != ':' by {
        assert(s[j] == port[j - n - 1]);
    }
    text::lemma_last_index(s, ':', n);
    assert(s.take(n) =~= host);
    assert(s.skip(n + 1) =~= port);
}

/// Nothing but the local host is found in an authority: what is found stands there, with
/// a port behind it that fits, and no user in front.
pub proof fn lemma_only_loopback(a: Seq<char>)
    ensures
        loopback(a) matches Some((host, port)) ==> {
            &&& port <= 65535
            &&& !a.contains('@')
            &&& host == "127.0.0.1"@ || host == "::1"@
            &&& host == "127.0.0.1"@ && !(a.len() > 0 && a[0] == '[') ==> exists|p: Seq<char>|
                text::parsed(p, 65535) == Some(port) && (a == #[trigger] ("localhost"@ + seq![':']
                    + p) || a == "127.0.0.1"@ + seq![':'] + p)
            &&& a.len() > 0 && a[0] == '[' ==> host == "::1"@ && exists|p: Seq<char>|
                text::parsed(p, 65535) == Some(port) && a == #[trigger] (seq!['['] + "::1"@
                    + seq![']'] + seq![':'] + p)
        },
{
    if let Some((host, port)) = loopback(a) {
        if a.len() > 0 && a[0] == '[' {
            text::lemma_split_once(a.skip(1), ']');
            let (h, tail) = text::split_once_on(a.skip(1), ']')->Some_0;
            let p = tail.skip(1);
            assert(a =~= seq!['['] + a.skip(1));
            assert(tail =~= seq![':'] + p);
            assert(a =~= seq!['['] + "::1"@ + seq![']'] + seq![':'] + p);
            text::lemma_reading_a_number(p, 65535);
        } else {
            text::lemma_rsplit_once(a, ':');
            let (h, p) = text::rsplit_once_on(a, ':')->Some_0;
            text::lemma_reading_a_number(p, 65535);
            assert(a == h + seq![':'] + p);
            assert("localhost"@ + seq![':'] + p == "localhost"@ + seq![':'] + p);
        }
    }
}

/// An address of the local host is found behind `http://` and `https://`, whatever follows
/// its authority, and behind no other scheme.
#[verifier::spinoff_prover]
#[verifier::rlimit(40)]
pub proof fn lemma_loopback_of_url(a: Seq<char>, rest: Seq<char>, scheme: Seq<char>)
    requires
        !a.contains('/'),
        !a.contains('?'),
        !a.contains('#'),
        rest.len() > 0 ==> rest[0] == '/' || rest[0] == '?' || rest[0] == '#',
        !scheme.contains(':'),
    ensures
        scheme == "http"@ || scheme == "https"@ ==> loopback_of_url(scheme + "://"@ + (a + rest))
            == loopback(a),
        scheme != "http"@ && scheme != "https"@ ==> loopback_of_url(
            scheme + "://"@ + (a + rest),
        ) is None,
{
    reveal_strlit("://");
    let pat = "://"@;
    let url = scheme + pat + (a + rest);
    text::lemma_split_at_pattern(url, pat);
    assert(text::occurs_at(url, pat, scheme.len() as int)) by {
        assert(url.subrange(scheme.len() as int, scheme.len() as int + 3) =~= pat);
    }
    match text::split_once_at(url, pat) {
        Some((x, y)) => {
            assert(x.len() <= scheme.len());
            if x.len() < scheme.len() {
                assert((x + pat + y)[x.len() as int] == ':');
                assert(url[x.len() as int] == scheme[x.len() as int]);
                assert(scheme.contains(':'));
            }
            assert(x =~= url.take(x.len() as int));
            assert(scheme =~= url.take(scheme.len() as int));
            assert(y =~= url.skip(x.len() as int + 3));
            assert(a + rest =~= url.skip(scheme.len() as int + 3));
        },
        None => {
            assert(text::holds(url, pat));
        },
    }
    lemma_authority_of(a, rest);
}

} // verus!
