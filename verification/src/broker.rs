//! The VM owner's broker: which channels are open, when the VM counts as idle, and
//! where the guest agent's messages go.
use vstd::prelude::*;

use crate::forwards;
use crate::protocol::Message;
use crate::text;

verus! {

/// An open channel. `owned` says that the channel holds an activity slot, which is
/// given back when the guest agent closes the channel; the slot of any other channel
/// belongs to the connection that opened it.
#[derive(Clone, Copy, PartialEq, Eq, Structural, Debug)]
pub struct Channel {
    pub id: u64,
    pub owned: bool,
}

/// Whether a channel is open.
pub open spec fn is_open(channels: Seq<Channel>, id: u64) -> bool {
    exists|i: int| 0 <= i < channels.len() && (#[trigger] channels[i]).id == id
}

/// Whether a channel is open and holds an activity slot.
pub open spec fn is_owned(channels: Seq<Channel>, id: u64) -> bool {
    channels.contains(Channel { id, owned: true })
}

/// The channels but for the one with this id.
pub open spec fn without(channels: Seq<Channel>, id: u64) -> Seq<Channel>
    decreases channels.len(),
{
    if channels.len() == 0 {
        channels
    } else if channels.last().id == id {
        without(channels.drop_last(), id)
    } else {
        without(channels.drop_last(), id).push(channels.last())
    }
}

/// How many channels hold an activity slot.
pub open spec fn owned_count(channels: Seq<Channel>) -> nat
    decreases channels.len(),
{
    if channels.len() == 0 {
        0
    } else {
        owned_count(channels.drop_last()) + if channels.last().owned {
            1nat
        } else {
            0nat
        }
    }
}

/// No two open channels have the same id.
pub open spec fn distinct(channels: Seq<Channel>) -> bool {
    forall|i: int, j: int|
        0 <= i < j < channels.len() ==> (#[trigger] channels[i]).id != (
        #[trigger] channels[j]).id
}

proof fn lemma_without(channels: Seq<Channel>, id: u64)
    requires
        distinct(channels),
    ensures
        distinct(without(channels, id)),
        !is_open(without(channels, id), id),
        forall|c: Channel| c.id != id ==> (without(channels, id).contains(c) <==> channels.contains(c)),
        forall|other: u64| other != id ==> (is_open(without(channels, id), other) <==> is_open(
            channels,
            other,
        )),
        owned_count(without(channels, id)) == owned_count(channels) - if is_owned(channels, id) {
            1int
        } else {
            0int
        },
    decreases channels.len(),
{
    let out = without(channels, id);
    if channels.len() > 0 {
        let rest = channels.drop_last();
        let last = channels.last();
        assert(distinct(rest));
        lemma_without(rest, id);
        assert forall|c: Channel| channels.contains(c) <==> rest.contains(c) || c == last by {
            if rest.contains(c) {
                let i = choose|i: int| 0 <= i < rest.len() && rest[i] == c;
                assert(channels[i] == c);
            }
            if c == last {
                assert(channels[channels.len() - 1] == c);
            }
            if channels.contains(c) {
                let i = choose|i: int| 0 <= i < channels.len() && channels[i] == c;
                if i < rest.len() {
                    assert(rest[i] == c);
                }
            }
        }
        if last.id == id {
            if rest.contains(Channel { id, owned: true }) {
                let i = choose|i: int|
                    0 <= i < rest.len() && rest[i] == (Channel { id, owned: true });
                assert(channels[i].id == channels[channels.len() - 1].id);
                assert(false);
            }
            assert forall|other: u64| other != id implies (is_open(out, other) <==> is_open(
                channels,
                other,
            )) by {
                if is_open(channels, other) {
                    let i = choose|i: int|
                        0 <= i < channels.len() && (#[trigger] channels[i]).id == other;
                    assert(rest[i].id == other);
                    assert(is_open(rest, other));
                }
                if is_open(rest, other) {
                    let i = choose|i: int| 0 <= i < rest.len() && (#[trigger] rest[i]).id == other;
                    assert(channels[i].id == other);
                }
            }
            assert(is_owned(channels, id) <==> last.owned);
        } else {
            let kept = without(rest, id);
            assert(out == kept.push(last));
            assert(out.drop_last() =~= kept);
            assert forall|i: int, j: int| 0 <= i < j < out.len() implies (#[trigger] out[i]).id != (
            #[trigger] out[j]).id by {
                if j == out.len() - 1 {
                    assert(kept.contains(out[i]));
                    if out[i].id == last.id {
                        assert(rest.contains(out[i]));
                        let k = choose|k: int| 0 <= k < rest.len() && rest[k] == out[i];
                        assert(channels[k].id != channels[channels.len() - 1].id);
                    }
                } else {
                    assert(kept[i] == out[i] && kept[j] == out[j]);
                }
            }
            assert(!is_open(out, id)) by {
                if is_open(out, id) {
                    let i = choose|i: int| 0 <= i < out.len() && (#[trigger] out[i]).id == id;
                    assert(kept[i].id == id);
                }
            }
            assert forall|c: Channel| c.id != id implies (out.contains(c) <==> channels.contains(
                c,
            )) by {
                if out.contains(c) {
                    let i = choose|i: int| 0 <= i < out.len() && out[i] == c;
                    if i < kept.len() {
                        assert(kept[i] == c);
                    }
                }
                if kept.contains(c) {
                    let i = choose|i: int| 0 <= i < kept.len() && kept[i] == c;
                    assert(out[i] == c);
                }
                if c == last {
                    assert(out[out.len() - 1] == c);
                }
            }
            assert forall|other: u64| other != id implies (is_open(out, other) <==> is_open(
                channels,
                other,
            )) by {
                if is_open(channels, other) {
                    let i = choose|i: int|
                        0 <= i < channels.len() && (#[trigger] channels[i]).id == other;
                    assert(channels.contains(channels[i]));
                    assert(out.contains(channels[i]));
                    let k = choose|k: int| 0 <= k < out.len() && out[k] == channels[i];
                    assert(out[k].id == other);
                }
                if is_open(out, other) {
                    let i = choose|i: int| 0 <= i < out.len() && (#[trigger] out[i]).id == other;
                    assert(out.contains(out[i]));
                    assert(channels.contains(out[i]));
                    let k = choose|k: int| 0 <= k < channels.len() && channels[k] == out[i];
                    assert(channels[k].id == other);
                }
            }
            assert(is_owned(channels, id) == is_owned(rest, id));
        }
    }
}

/// What became of a request to open a channel.
#[derive(Debug, PartialEq, Eq)]
pub enum Registration {
    /// The channel is open.
    Open,
    /// A live channel has this id: the client is told so and let go.
    Collision,
    /// The owner is stopping: no new channels.
    Stopping,
}

/// When the broker next looks, and what it does until then.
#[derive(Debug, PartialEq, Eq)]
pub enum IdleStep {
    /// Look again after a moment.
    Wait,
    /// Nothing is going on and the grace period is over: take the final snapshot.
    Shutdown,
    /// The guest agent is gone: stop without a snapshot.
    AgentFailed,
}

/// What the listening socket of the broker reported.
#[derive(Debug, PartialEq, Eq)]
pub enum Accept {
    Client,
    WouldBlock,
    Failed,
}

/// What the owner's loop does next.
#[derive(Debug, PartialEq, Eq)]
pub enum LoopStep {
    /// Serve the client; a slot is reserved for it.
    Serve,
    /// Look again after a moment.
    Wait,
    /// Close the listening socket and take the final snapshot.
    Shutdown,
    /// Close the listening socket and stop without a snapshot.
    SkipSnapshot,
}

/// What the owner does with a message of the guest agent.
#[derive(Debug, PartialEq, Eq)]
pub enum AgentAction {
    /// A command was started: only the trace hears of it.
    ExecStarted { channel_id: u64 },
    /// The guest asks for a snapshot before it exits.
    SnapshotExit { channel_id: u64 },
    /// The guest asks to open a web address on the host; a loopback address is made
    /// reachable first.
    OpenUrl { channel_id: u64, url: String, forward: Option<(&'static str, u16)> },
    /// The guest listens on these ports, which can be forwarded.
    AutoForward { ports: Vec<u16> },
    /// Hand the message to the channel's client, if the channel is open.
    Deliver { channel_id: u64, open: bool, message: Message },
    /// Nothing.
    Ignore,
}

/// The state that the threads of a VM owner share.
pub struct Broker {
    channels: Vec<Channel>,
    reserved: usize,
    active: usize,
    seen_active: bool,
    stopping: bool,
    agent_failed: bool,
    snapshot_started: bool,
}

/// The text sent to a client whose channel id is already in use.
pub open spec fn collision_text(id: u64) -> Seq<char> {
    "channel id collision for live channel "@ + text::hex(id as nat, 16)
        + "; deterministic mode cannot run identical commands concurrently"@
}

/// The text sent to a client whose channel id is already in use.
pub fn collision_message(id: u64) -> (m: String)
    ensures
        m@ == collision_text(id),
{
    let mut m: String = "channel id collision for live channel ".to_owned();
    m.append(text::hexadecimal(id, 16).as_str());
    m.append("; deterministic mode cannot run identical commands concurrently");
    m
}

impl Broker {
    /// The open channels, in the order in which they were opened.
    pub closed spec fn channels(self) -> Seq<Channel> {
        self.channels@
    }

    /// How many slots are reserved by connections that hold them themselves.
    pub closed spec fn reserved(self) -> nat {
        self.reserved as nat
    }

    /// How many activity slots are taken.
    pub closed spec fn active(self) -> nat {
        self.active as nat
    }

    /// Whether there has been any activity, or none is waited for.
    pub closed spec fn seen_active(self) -> bool {
        self.seen_active
    }

    /// Whether the registration gate is closed.
    pub closed spec fn stopping(self) -> bool {
        self.stopping
    }

    /// Whether the guest agent was lost before the final snapshot began.
    pub closed spec fn agent_failed(self) -> bool {
        self.agent_failed
    }

    /// Whether the final snapshot has begun.
    pub closed spec fn snapshot_started(self) -> bool {
        self.snapshot_started
    }

    /// Every taken slot is accounted for: it is reserved by a connection or held by an
    /// open channel. No two channels share an id.
    pub closed spec fn wf(self) -> bool {
        &&& distinct(self.channels@)
        &&& self.active == self.reserved + owned_count(self.channels@)
    }

    /// What `wf` says of the slots.
    pub proof fn lemma_slots(self)
        requires
            self.wf(),
        ensures
            self.active() == self.reserved() + owned_count(self.channels()),
            distinct(self.channels()),
    {
    }

    /// Nothing but the activity slots and the channels differs.
    pub open spec fn same_flags(self, other: Broker) -> bool {
        &&& self.seen_active() == other.seen_active()
        &&& self.stopping() == other.stopping()
        &&& self.agent_failed() == other.agent_failed()
        &&& self.snapshot_started() == other.snapshot_started()
    }

    /// A broker without clients. With `starts_idle` the grace period runs from the
    /// start; otherwise it waits for a first client.
    pub fn new(starts_idle: bool) -> (b: Broker)
        ensures
            b.wf(),
            b.channels() == Seq::<Channel>::empty(),
            b.active() == 0,
            b.reserved() == 0,
            b.seen_active() == starts_idle,
            !b.stopping(),
            !b.agent_failed(),
            !b.snapshot_started(),
    {
        Broker {
            channels: Vec::new(),
            reserved: 0,
            active: 0,
            seen_active: starts_idle,
            stopping: false,
            agent_failed: false,
            snapshot_started: false,
        }
    }

    /// How many activity slots are taken.
    pub fn active_count(&self) -> (n: usize)
        ensures
            n == self.active(),
    {
        self.active
    }

    /// How many channels are open.
    pub fn channel_count(&self) -> (n: usize)
        ensures
            n == self.channels().len(),
    {
        self.channels.len()
    }

    /// Whether the registration gate is closed.
    pub fn is_stopping(&self) -> (r: bool)
        ensures
            r == self.stopping(),
    {
        self.stopping
    }

    /// Whether a channel is open.
    pub fn has_channel(&self, id: u64) -> (r: bool)
        ensures
            r == is_open(self.channels(), id),
    {
        let mut i: usize = 0;
        while i < self.channels.len()
            invariant
                i <= self.channels@.len(),
                forall|j: int| 0 <= j < i ==> (#[trigger] self.channels@[j]).id != id,
            decreases self.channels@.len() - i,
        {
            if self.channels[i].id == id {
                assert(self.channels@[i as int].id == id);
                return true;
            }
            i = i + 1;
        }
        false
    }

    /// Takes an activity slot for a new connection, so that the grace period cannot end
    /// between the connection and its first message.
    pub fn reserve(&mut self)
        requires
            old(self).wf(),
            old(self).active() < usize::MAX,
        ensures
            final(self).wf(),
            final(self).reserved() == old(self).reserved() + 1,
            final(self).active() == old(self).active() + 1,
            final(self).channels() == old(self).channels(),
            final(self).same_flags(*old(self)),
    {
        self.reserved = self.reserved + 1;
        self.active = self.active + 1;
    }

    /// Gives back the slot of a connection that still holds it.
    pub fn release(&mut self)
        requires
            old(self).wf(),
            old(self).reserved() > 0,
        ensures
            final(self).wf(),
            final(self).reserved() == old(self).reserved() - 1,
            final(self).active() == old(self).active() - 1,
            final(self).channels() == old(self).channels(),
            final(self).same_flags(*old(self)),
    {
        self.reserved = self.reserved - 1;
        self.active = self.active - 1;
    }

    /// Notes that there has been activity: from now on the owner may become idle.
    pub fn note_activity(&mut self)
        requires
            old(self).wf(),
        ensures
            final(self).wf(),
            final(self).seen_active(),
            final(self).active() == old(self).active(),
            final(self).reserved() == old(self).reserved(),
            final(self).channels() == old(self).channels(),
            final(self).stopping() == old(self).stopping(),
            final(self).agent_failed() == old(self).agent_failed(),
            final(self).snapshot_started() == old(self).snapshot_started(),
    {
        self.seen_active = true;
    }

    /// Opens a client's channel, which takes over the slot that its connection
    /// reserved. The broker must not be stopping, and the id must be free.
    pub fn register(&mut self, id: u64) -> (r: Registration)
        requires
            old(self).wf(),
            old(self).reserved() > 0,
        ensures
            final(self).wf(),
            final(self).active() == old(self).active(),
            final(self).same_flags(*old(self)),
            r == (if old(self).stopping() {
                Registration::Stopping
            } else if is_open(old(self).channels(), id) {
                Registration::Collision
            } else {
                Registration::Open
            }),
            r is Open ==> {
                &&& final(self).channels() == old(self).channels().push(Channel { id, owned: true })
                &&& final(self).reserved() == old(self).reserved() - 1
            },
            !(r is Open) ==> {
                &&& final(self).channels() == old(self).channels()
                &&& final(self).reserved() == old(self).reserved()
            },
    {
        if self.stopping {
            return Registration::Stopping;
        }
        if self.has_channel(id) {
            return Registration::Collision;
        }
        self.channels.push(Channel { id, owned: true });
        self.reserved = self.reserved - 1;
        proof {
            assert(self.channels@.drop_last() =~= old(self).channels@);
            assert forall|i: int, j: int| 0 <= i < j < self.channels@.len() implies (
            #[trigger] self.channels@[i]).id != (#[trigger] self.channels@[j]).id by {
                assert(self.channels@[i] == old(self).channels@[i]);
            }
        }
        Registration::Open
    }

    /// Opens the channel of a port forward, which keeps its own slot.
    pub fn register_forward(&mut self, id: u64) -> (r: Registration)
        requires
            old(self).wf(),
        ensures
            final(self).wf(),
            final(self).active() == old(self).active(),
            final(self).reserved() == old(self).reserved(),
            final(self).same_flags(*old(self)),
            r == (if old(self).stopping() {
                Registration::Stopping
            } else if is_open(old(self).channels(), id) {
                Registration::Collision
            } else {
                Registration::Open
            }),
            r is Open ==> final(self).channels() == old(self).channels().push(
                Channel { id, owned: false },
            ),
            !(r is Open) ==> final(self).channels() == old(self).channels(),
    {
        if self.stopping {
            return Registration::Stopping;
        }
        if self.has_channel(id) {
            return Registration::Collision;
        }
        self.channels.push(Channel { id, owned: false });
        proof {
            assert(self.channels@.drop_last() =~= old(self).channels@);
            assert forall|i: int, j: int| 0 <= i < j < self.channels@.len() implies (
            #[trigger] self.channels@[i]).id != (#[trigger] self.channels@[j]).id by {
                assert(self.channels@[i] == old(self).channels@[i]);
            }
        }
        Registration::Open
    }

    /// Takes a channel out of the list; says whether it held a slot.
    fn take_out(&mut self, id: u64) -> (owned: bool)
        requires
            distinct(old(self).channels@),
        ensures
            final(self).channels@ == without(old(self).channels@, id),
            owned == is_owned(old(self).channels@, id),
            final(self).reserved == old(self).reserved,
            final(self).active == old(self).active,
            final(self).same_flags(*old(self)),
    {
        let mut kept: Vec<Channel> = Vec::new();
        let mut owned: bool = false;
        let mut i: usize = 0;
        while i < self.channels.len()
            invariant
                i <= self.channels@.len(),
                self.channels@ == old(self).channels@,
                self.reserved == old(self).reserved,
                self.active == old(self).active,
                self.same_flags(*old(self)),
                kept@ == without(self.channels@.take(i as int), id),
                owned == is_owned(self.channels@.take(i as int), id),
            decreases self.channels@.len() - i,
        {
            let channel: Channel = self.channels[i];
            proof {
                let next = self.channels@.take(i + 1);
                let prev = self.channels@.take(i as int);
                assert(next.drop_last() =~= prev);
                assert(next.last() == channel);
                let sought = Channel { id, owned: true };
                if next.contains(sought) {
                    let k = choose|k: int| 0 <= k < next.len() && next[k] == sought;
                    if k < i {
                        assert(prev[k] == sought);
                    }
                }
                if prev.contains(sought) {
                    let k = choose|k: int| 0 <= k < prev.len() && prev[k] == sought;
                    assert(next[k] == sought);
                }
                if channel == sought {
                    assert(next[i as int] == sought);
                }
            }
            if channel.id == id {
                if channel.owned {
                    owned = true;
                }
            } else {
                kept.push(channel);
            }
            i = i + 1;
        }
        assert(self.channels@.take(i as int) =~= self.channels@);
        self.channels = kept;
        owned
    }

    /// Closes a channel and gives back its slot, if it held one. The answer says
    /// whether it did.
    pub fn close(&mut self, id: u64) -> (owned: bool)
        requires
            old(self).wf(),
        ensures
            final(self).wf(),
            owned == is_owned(old(self).channels(), id),
            final(self).channels() == without(old(self).channels(), id),
            !is_open(final(self).channels(), id),
            final(self).active() == old(self).active() - (if owned {
                1int
            } else {
                0int
            }),
            final(self).reserved() == old(self).reserved(),
            final(self).same_flags(*old(self)),
    {
        proof {
            lemma_without(self.channels@, id);
        }
        let owned: bool = self.take_out(id);
        if owned {
            self.active = self.active - 1;
        }
        owned
    }

    /// Takes back a channel whose opening message could not be sent: its slot goes back
    /// to the connection. The answer is false when the channel was closed meanwhile,
    /// and its slot with it.
    pub fn abandon(&mut self, id: u64) -> (r: bool)
        requires
            old(self).wf(),
        ensures
            final(self).wf(),
            r == is_owned(old(self).channels(), id),
            final(self).channels() == without(old(self).channels(), id),
            final(self).active() == old(self).active(),
            final(self).reserved() == old(self).reserved() + (if r {
                1int
            } else {
                0int
            }),
            final(self).same_flags(*old(self)),
    {
        proof {
            lemma_without(self.channels@, id);
        }
        let owned: bool = self.take_out(id);
        if owned {
            self.reserved = self.reserved + 1;
        }
        owned
    }

    /// Closes every channel, gives back the slots that they held, and says which
    /// channels there were: each of their clients is sent the error, if there is one.
    pub fn drain(&mut self) -> (dropped: Vec<Channel>)
        requires
            old(self).wf(),
        ensures
            final(self).wf(),
            dropped@ == old(self).channels(),
            final(self).channels() == Seq::<Channel>::empty(),
            final(self).active() == old(self).reserved(),
            final(self).reserved() == old(self).reserved(),
            final(self).same_flags(*old(self)),
    {
        let mut dropped: Vec<Channel> = Vec::new();
        let mut slots: usize = 0;
        let mut i: usize = 0;
        while i < self.channels.len()
            invariant
                i <= self.channels@.len(),
                *self == *old(self),
                self.wf(),
                dropped@ == self.channels@.take(i as int),
                slots == owned_count(self.channels@.take(i as int)),
                slots <= i,
            decreases self.channels@.len() - i,
        {
            assert(self.channels@.take(i + 1).drop_last() =~= self.channels@.take(i as int));
            let channel: Channel = self.channels[i];
            if channel.owned {
                slots = slots + 1;
            }
            dropped.push(channel);
            i = i + 1;
        }
        assert(self.channels@.take(i as int) =~= self.channels@);
        self.channels = Vec::new();
        self.active = self.active - slots;
        dropped
    }

    /// Closes the registration gate, then every channel: no client can slip in
    /// between.
    pub fn begin_shutdown(&mut self) -> (dropped: Vec<Channel>)
        requires
            old(self).wf(),
        ensures
            final(self).wf(),
            final(self).stopping(),
            dropped@ == old(self).channels(),
            final(self).channels() == Seq::<Channel>::empty(),
            final(self).active() == old(self).reserved(),
            final(self).reserved() == old(self).reserved(),
            final(self).seen_active() == old(self).seen_active(),
            final(self).agent_failed() == old(self).agent_failed(),
            final(self).snapshot_started() == old(self).snapshot_started(),
    {
        self.stopping = true;
        self.drain()
    }

    /// The connection to the guest agent is lost. Before the final snapshot that is a
    /// failure, which every waiting client is told; after it began, it is expected.
    pub fn agent_disconnected(&mut self) -> (r: (bool, Vec<Channel>))
        requires
            old(self).wf(),
        ensures
            final(self).wf(),
            r.0 == !old(self).snapshot_started(),
            r.1@ == old(self).channels(),
            final(self).channels() == Seq::<Channel>::empty(),
            final(self).active() == old(self).reserved(),
            final(self).reserved() == old(self).reserved(),
            final(self).agent_failed() == (old(self).agent_failed() || !old(
                self,
            ).snapshot_started()),
            final(self).seen_active() == old(self).seen_active(),
            final(self).stopping() == old(self).stopping(),
            final(self).snapshot_started() == old(self).snapshot_started(),
    {
        let failed: bool = !self.snapshot_started;
        if failed {
            self.agent_failed = true;
        }
        let dropped: Vec<Channel> = self.drain();
        (failed, dropped)
    }

    /// Begins the final snapshot, unless the guest agent is lost. The answer says
    /// whether it began.
    pub fn begin_final_snapshot(&mut self) -> (r: bool)
        requires
            old(self).wf(),
        ensures
            final(self).wf(),
            r == !old(self).agent_failed(),
            final(self).snapshot_started() == (old(self).snapshot_started() || r),
            final(self).channels() == old(self).channels(),
            final(self).active() == old(self).active(),
            final(self).reserved() == old(self).reserved(),
            final(self).seen_active() == old(self).seen_active(),
            final(self).stopping() == old(self).stopping(),
            final(self).agent_failed() == old(self).agent_failed(),
    {
        if self.agent_failed {
            return false;
        }
        self.snapshot_started = true;
        true
    }

    /// Looks whether the VM is idle. `deadline` is when the grace period ends: it is
    /// set when the VM becomes idle and taken back when it no longer is. Times are
    /// milliseconds of one clock.
    pub fn idle_step(&self, deadline: &mut Option<u64>, now: u64, ttl: u64) -> (r: IdleStep)
        requires
            now + ttl <= u64::MAX,
        ensures
            (r, *final(deadline)) == idle_response(
                self.agent_failed(),
                self.active(),
                self.seen_active(),
                *old(deadline),
                now,
                ttl,
            ),
    {
        if self.agent_failed {
            return IdleStep::AgentFailed;
        }
        if self.active > 0 {
            *deadline = None;
            return IdleStep::Wait;
        }
        if !self.seen_active {
            return IdleStep::Wait;
        }
        if ttl == 0 {
            return IdleStep::Shutdown;
        }
        let end: u64 = match *deadline {
            Some(end) => end,
            None => now + ttl,
        };
        *deadline = Some(end);
        if now >= end {
            IdleStep::Shutdown
        } else {
            IdleStep::Wait
        }
    }

    /// One turn of the owner's loop. A client that came is served with a slot of its
    /// own; otherwise the owner looks whether it is idle. A broken socket ends the
    /// loop.
    pub fn owner_step(
        &mut self,
        accept: Accept,
        deadline: &mut Option<u64>,
        now: u64,
        ttl: u64,
    ) -> (r: LoopStep)
        requires
            old(self).wf(),
            old(self).active() < usize::MAX,
            now + ttl <= u64::MAX,
        ensures
            final(self).wf(),
            final(self).channels() == old(self).channels(),
            final(self).same_flags(*old(self)),
            accept is Client ==> {
                &&& r is Serve
                &&& final(self).active() == old(self).active() + 1
                &&& final(self).reserved() == old(self).reserved() + 1
                &&& *final(deadline) == *old(deadline)
            },
            accept is Failed ==> {
                &&& r is Shutdown
                &&& final(self).active() == old(self).active()
                &&& final(self).reserved() == old(self).reserved()
                &&& *final(deadline) == *old(deadline)
            },
            accept is WouldBlock ==> {
                &&& final(self).active() == old(self).active()
                &&& final(self).reserved() == old(self).reserved()
                &&& ({
                    let (step, end) = idle_response(
                        old(self).agent_failed(),
                        old(self).active(),
                        old(self).seen_active(),
                        *old(deadline),
                        now,
                        ttl,
                    );
                    &&& *final(deadline) == end
                    &&& r == (match step {
                        IdleStep::Wait => LoopStep::Wait,
                        IdleStep::Shutdown => LoopStep::Shutdown,
                        IdleStep::AgentFailed => LoopStep::SkipSnapshot,
                    })
                })
            },
    {
        match accept {
            Accept::Client => {
                self.reserve();
                LoopStep::Serve
            },
            Accept::Failed => LoopStep::Shutdown,
            Accept::WouldBlock => match self.idle_step(deadline, now, ttl) {
                IdleStep::Wait => LoopStep::Wait,
                IdleStep::Shutdown => LoopStep::Shutdown,
                IdleStep::AgentFailed => LoopStep::SkipSnapshot,
            },
        }
    }

    /// Decides where a message of the guest agent goes. A close also closes the
    /// channel, and gives back its slot.
    pub fn route(&mut self, message: Message) -> (r: AgentAction)
        requires
            old(self).wf(),
        ensures
            final(self).wf(),
            final(self).same_flags(*old(self)),
            final(self).reserved() == old(self).reserved(),
            route_matches(old(self).channels(), message, r),
            message matches Message::Close { channel_id } ==> {
                &&& final(self).channels() == without(old(self).channels(), channel_id)
                &&& final(self).active() == old(self).active() - (if is_owned(
                    old(self).channels(),
                    channel_id,
                ) {
                    1int
                } else {
                    0int
                })
            },
            !(message is Close) ==> {
                &&& final(self).channels() == old(self).channels()
                &&& final(self).active() == old(self).active()
            },
    {
        match message {
            Message::ExecStarted { channel_id } => AgentAction::ExecStarted { channel_id },
            Message::SnapshotExit { channel_id } => AgentAction::SnapshotExit { channel_id },
            Message::OpenUrl { channel_id, url } => {
                let forward = forwards::localhost_url_forward(url.as_str());
                AgentAction::OpenUrl { channel_id, url, forward }
            },
            Message::PortListeners { ports } => AgentAction::AutoForward {
                ports: forwards::unprivileged(&ports),
            },
            Message::Close { channel_id } => {
                let open: bool = self.has_channel(channel_id);
                let _ = self.close(channel_id);
                AgentAction::Deliver { channel_id, open, message: Message::Close { channel_id } }
            },
            Message::Data { channel_id, bytes } => AgentAction::Deliver {
                channel_id,
                open: self.has_channel(channel_id),
                message: Message::Data { channel_id, bytes },
            },
            Message::Stderr { channel_id, bytes } => AgentAction::Deliver {
                channel_id,
                open: self.has_channel(channel_id),
                message: Message::Stderr { channel_id, bytes },
            },
            Message::Eof { channel_id } => AgentAction::Deliver {
                channel_id,
                open: self.has_channel(channel_id),
                message: Message::Eof { channel_id },
            },
            Message::ExitStatus { channel_id, status } => AgentAction::Deliver {
                channel_id,
                open: self.has_channel(channel_id),
                message: Message::ExitStatus { channel_id, status },
            },
            Message::Error { channel_id, message } => AgentAction::Deliver {
                channel_id,
                open: self.has_channel(channel_id),
                message: Message::Error { channel_id, message },
            },
            _ => AgentAction::Ignore,
        }
    }
}

/// The channel whose client a message of the guest agent is for.
pub open spec fn delivery_channel(message: Message) -> Option<u64> {
    match message {
        Message::Data { channel_id, .. } => Some(channel_id),
        Message::Stderr { channel_id, .. } => Some(channel_id),
        Message::Eof { channel_id } => Some(channel_id),
        Message::ExitStatus { channel_id, .. } => Some(channel_id),
        Message::Close { channel_id } => Some(channel_id),
        Message::Error { channel_id, .. } => Some(channel_id),
        _ => None,
    }
}

/// Whether an action is the one for a message of the guest agent.
pub open spec fn route_matches(
    channels: Seq<Channel>,
    message: Message,
    action: AgentAction,
) -> bool {
    match message {
        Message::ExecStarted { channel_id } => action == (AgentAction::ExecStarted { channel_id }),
        Message::SnapshotExit { channel_id } => action == (AgentAction::SnapshotExit {
            channel_id,
        }),
        Message::OpenUrl { channel_id, url } => {
            action matches AgentAction::OpenUrl { channel_id: id, url: address, forward } && id
                == channel_id && address == url && match forward {
                Some((host, port)) => forwards::loopback_of_url(url@) == Some(
                    (host@, port as nat),
                ),
                None => forwards::loopback_of_url(url@) is None,
            }
        },
        Message::PortListeners { ports } => {
            action matches AgentAction::AutoForward { ports: kept } && kept@ == ports@.filter(
                |p: u16| p > forwards::LAST_PRIVILEGED_PORT,
            )
        },
        _ => match delivery_channel(message) {
            Some(channel_id) => action == (AgentAction::Deliver {
                channel_id,
                open: is_open(channels, channel_id),
                message,
            }),
            None => action == AgentAction::Ignore,
        },
    }
}

/// Whether the VM is idle, and when its grace period ends.
pub open spec fn idle_response(
    agent_failed: bool,
    active: nat,
    seen_active: bool,
    deadline: Option<u64>,
    now: u64,
    ttl: u64,
) -> (IdleStep, Option<u64>) {
    if agent_failed {
        (IdleStep::AgentFailed, deadline)
    } else if active > 0 {
        (IdleStep::Wait, None)
    } else if !seen_active {
        (IdleStep::Wait, deadline)
    } else if ttl == 0 {
        (IdleStep::Shutdown, deadline)
    } else {
        let end = match deadline {
            Some(end) => end,
            None => (now + ttl) as u64,
        };
        (
            if now >= end {
                IdleStep::Shutdown
            } else {
                IdleStep::Wait
            },
            Some(end),
        )
    }
}

/// A VM with an active client is never shut down for being idle.
pub proof fn lemma_no_shutdown_while_active(
    active: nat,
    seen_active: bool,
    deadline: Option<u64>,
    now: u64,
    ttl: u64,
)
    requires
        active > 0,
    ensures
        idle_response(false, active, seen_active, deadline, now, ttl) == (
            IdleStep::Wait,
            None::<u64>,
        ),
{
}

/// The deadline after the broker has looked at each of the times in turn, idle
/// throughout.
pub open spec fn idle_deadline(times: Seq<u64>, ttl: u64) -> Option<u64>
    decreases times.len(),
{
    if times.len() == 0 {
        None
    } else {
        idle_response(
            false,
            0,
            true,
            idle_deadline(times.drop_last(), ttl),
            times.last(),
            ttl,
        ).1
    }
}

/// The grace period runs from the moment at which the VM became idle: however often the
/// broker looks meanwhile, it shuts down at `now` exactly when the grace period is over
/// since the first look.
pub proof fn lemma_grace_period_runs_once(times: Seq<u64>, now: u64, ttl: u64)
    requires
        times.len() > 0,
        0 < ttl,
        times[0] + ttl <= u64::MAX,
    ensures
        idle_deadline(times, ttl) == Some((times[0] + ttl) as u64),
        (idle_response(false, 0, true, idle_deadline(times, ttl), now, ttl).0 is Shutdown) <==> now
            >= times[0] + ttl,
    decreases times.len(),
{
    if times.len() == 1 {
        assert(times.drop_last() =~= Seq::<u64>::empty());
        assert(idle_deadline(times.drop_last(), ttl) is None);
        assert(times.last() == times[0]);
    } else {
        lemma_grace_period_runs_once(times.drop_last(), now, ttl);
        assert(times.drop_last()[0] == times[0]);
    }
}

/// An owner that has seen no client, and does not start idle, waits.
pub proof fn lemma_waits_for_a_first_client(deadline: Option<u64>, now: u64, ttl: u64)
    ensures
        idle_response(false, 0, false, deadline, now, ttl).0 is Wait,
{
}

/// The error that a client is sent when its channel is drained.
pub fn drain_notice(channel: Channel, error: &str) -> (m: Message)
    ensures
        m matches Message::Error { channel_id, message } && channel_id == channel.id && message@
            == error@,
{
    Message::Error { channel_id: channel.id, message: error.to_owned() }
}

/// The error for clients that wait when the guest agent is lost.
pub fn agent_lost_message(error: &str) -> (m: String)
    ensures
        m@ == "guest agent disconnected before command completed: "@ + error@,
{
    let mut m: String = "guest agent disconnected before command completed: ".to_owned();
    m.append(error);
    m
}

/// The answer to a client that asked for a checkpoint.
pub fn checkpoint_answer(channel: u64, error: Option<String>) -> (m: Message)
    ensures
        match error {
            None => m == (Message::CheckpointCreated { channel_id: channel }),
            Some(e) => m matches Message::Error { channel_id, message } && channel_id == channel
                && message@ == e@,
        },
{
    match error {
        None => Message::CheckpointCreated { channel_id: channel },
        Some(message) => Message::Error { channel_id: channel, message },
    }
}

/// The answer to a guest that asked for a snapshot before it ends.
pub fn snapshot_exit_answer(channel: u64, error: Option<&str>) -> (m: Message)
    ensures
        match error {
            None => m == (Message::CheckpointCreated { channel_id: channel }),
            Some(e) => m matches Message::Error { channel_id, message } && channel_id == channel
                && message@ == "snapshot-exit failed: "@ + e@,
        },
{
    match error {
        None => Message::CheckpointCreated { channel_id: channel },
        Some(e) => {
            let mut message: String = "snapshot-exit failed: ".to_owned();
            message.append(e);
            Message::Error { channel_id: channel, message }
        },
    }
}

/// What the broker does with what it reads from a client.
#[derive(Debug, PartialEq, Eq)]
pub enum ClientStep {
    /// Hand the message to the guest agent.
    Forward(Message),
    /// The client is gone: tell the guest agent that no more input comes.
    InputEnded(Message),
}

/// Decides what the broker does with what it reads from a client; `None` is a read that
/// failed.
pub fn client_step(channel_id: u64, read: Option<Message>) -> (r: ClientStep)
    ensures
        match read {
            Some(message) => r == ClientStep::Forward(message),
            None => r == ClientStep::InputEnded(Message::Eof { channel_id }),
        },
{
    match read {
        Some(message) => ClientStep::Forward(message),
        None => ClientStep::InputEnded(Message::Eof { channel_id }),
    }
}

// ---------------------------------------------------------------------------
// Laws of channels and routing
// ---------------------------------------------------------------------------

/// Closing takes every place of one id out and leaves all others where they were.
pub proof fn lemma_closing(a: Seq<Channel>, b: Seq<Channel>, channel: Channel, id: u64)
    ensures
        without(a + b, id) == without(a, id) + without(b, id),
        channel.id == id ==> without(seq![channel], id) == Seq::<Channel>::empty(),
        channel.id != id ==> without(seq![channel], id) == seq![channel],
        without(Seq::<Channel>::empty(), id) == Seq::<Channel>::empty(),
    decreases b.len(),
{
    reveal_with_fuel(without, 2);
    assert(seq![channel].drop_last() =~= Seq::<Channel>::empty());
    assert(Seq::<Channel>::empty().push(channel) =~= seq![channel]);
    if b.len() == 0 {
        assert(a + b =~= a);
        assert(without(a, id) + without(b, id) =~= without(a, id));
    } else {
        lemma_closing(a, b.drop_last(), channel, id);
        assert((a + b).drop_last() =~= a + b.drop_last());
        assert(without(a + b, id) =~= without(a, id) + without(b, id));
    }
}

/// Every channel that holds a slot counts once, and no other counts.
pub proof fn lemma_slots_are_counted(a: Seq<Channel>, b: Seq<Channel>, channel: Channel)
    ensures
        owned_count(a + b) == owned_count(a) + owned_count(b),
        owned_count(seq![channel]) == (if channel.owned {
            1nat
        } else {
            0nat
        }),
        owned_count(Seq::<Channel>::empty()) == 0,
    decreases b.len(),
{
    reveal_with_fuel(owned_count, 2);
    assert(seq![channel].drop_last() =~= Seq::<Channel>::empty());
    if b.len() == 0 {
        assert(a + b =~= a);
    } else {
        lemma_slots_are_counted(a, b.drop_last(), channel);
        assert((a + b).drop_last() =~= a + b.drop_last());
    }
}

/// Whatever the guest sends for a channel goes to that channel's client, as it was sent;
/// it is delivered exactly where the channel is open.
pub proof fn lemma_guest_messages_reach_their_client(
    channels: Seq<Channel>,
    id: u64,
    bytes: Vec<u8>,
    status: i32,
    error: String,
    action: AgentAction,
)
    ensures
        ({
            let sent = seq![
                Message::Data { channel_id: id, bytes },
                Message::Stderr { channel_id: id, bytes },
                Message::Eof { channel_id: id },
                Message::ExitStatus { channel_id: id, status },
                Message::Close { channel_id: id },
                Message::Error { channel_id: id, message: error },
            ];
            forall|k: int|
                0 <= k < sent.len() && #[trigger] route_matches(channels, sent[k], action)
                    ==> action == (AgentAction::Deliver {
                    channel_id: id,
                    open: exists|i: int|
                        0 <= i < channels.len() && (#[trigger] channels[i]).id == id,
                    message: sent[k],
                })
        }),
{
}

/// The guest's requests to the host are told apart: a snapshot before it exits, an
/// address to open, and the ports on which it listens, of which every one above 1024 is
/// kept in its order and no other.
pub proof fn lemma_guest_requests(
    channels: Seq<Channel>,
    id: u64,
    url: String,
    ports: Vec<u16>,
    action: AgentAction,
)
    ensures
        route_matches(channels, Message::ExecStarted { channel_id: id }, action) <==> action == (
        AgentAction::ExecStarted { channel_id: id }),
        route_matches(channels, Message::SnapshotExit { channel_id: id }, action) <==> action == (
        AgentAction::SnapshotExit { channel_id: id }),
        route_matches(channels, Message::OpenUrl { channel_id: id, url }, action) ==> (
        action matches AgentAction::OpenUrl { channel_id, url: address, forward } && channel_id == id
            && address == url && (forward is None <==> forwards::loopback_of_url(url@) is None) && (
        forward matches Some((host, port)) ==> forwards::loopback_of_url(url@) == Some(
            (host@, port as nat),
        ))),
        route_matches(channels, Message::PortListeners { ports }, action) ==> (
        action matches AgentAction::AutoForward { ports: kept } && kept@ == ports@.filter(
            |p: u16| p >= 1025,
        )),
{
    let above = |p: u16| p > forwards::LAST_PRIVILEGED_PORT;
    let free = |p: u16| p >= 1025;
    assert forall|p: u16| #[trigger] above(p) == free(p) by {}
    assert(above =~= free);
    assert(ports@.filter(above) == ports@.filter(free));
}

/// The owner shuts down exactly when nothing is going on, something was, the agent is
/// there and the grace period is over; a lost agent ends it at once, whatever else holds.
pub proof fn lemma_when_the_owner_stops(
    agent_failed: bool,
    active: nat,
    seen_active: bool,
    deadline: Option<u64>,
    now: u64,
    ttl: u64,
)
    requires
        now + ttl <= u64::MAX,
    ensures
        (idle_response(agent_failed, active, seen_active, deadline, now, ttl).0 is AgentFailed)
            <==> agent_failed,
        (idle_response(agent_failed, active, seen_active, deadline, now, ttl).0 is Shutdown) <==> (
        !agent_failed && active == 0 && seen_active && (ttl == 0 || (deadline matches Some(end)
            && now >= end))),
        !agent_failed && active == 0 && seen_active && ttl > 0 && deadline is None
            ==> idle_response(agent_failed, active, seen_active, deadline, now, ttl).1 == Some(
            (now + ttl) as u64,
        ),
{
}

/// What is not for a client and asks nothing of the host is passed over.
pub proof fn lemma_other_guest_messages_are_ignored(
    channels: Seq<Channel>,
    message: Message,
    action: AgentAction,
)
    requires
        route_matches(channels, message, action),
        message is Hello || message is OpenExec || message is OpenTcp || message is WindowResize
            || message is Checkpoint || message is CheckpointCreated || message is SnapshotReady
            || message is OpenUrlResult || message is RestoreSync || message is RestoreSynced,
    ensures
        action == AgentAction::Ignore,
{
}

} // verus!
