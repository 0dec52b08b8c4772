//! The network of VMs on macOS: its subnet, and what is done with its packets.
//!
//! Addresses are numbers, the first octet the most significant.
use vstd::prelude::*;

use crate::text;

verus! {

// ---------------------------------------------------------------------------
// Subnets
// ---------------------------------------------------------------------------

/// The number of an octet: decimal, without leading zeros.
pub open spec fn octet_of(s: Seq<char>) -> Option<nat> {
    if 1 <= s.len() <= 3 && text::all_digits(s) && (s.len() == 1 || s[0] != '0')
        && text::dec_value(s) <= 255 {
        Some(text::dec_value(s))
    } else {
        None
    }
}

/// The address that four octets make.
pub open spec fn address(a: nat, b: nat, c: nat, d: nat) -> nat {
    a * 0x100_0000 + b * 0x1_0000 + c * 0x100 + d
}

/// The address that a text denotes: four octets with points between them.
pub open spec fn address_of(s: Seq<char>) -> Option<nat> {
    let parts = text::split_on(s, '.');
    if parts.len() == 4 {
        match (octet_of(parts[0]), octet_of(parts[1]), octet_of(parts[2]), octet_of(parts[3])) {
            (Some(a), Some(b), Some(c), Some(d)) => Some(address(a, b, c, d)),
            _ => None,
        }
    } else {
        None
    }
}

/// Two to the power of a number.
pub open spec fn power(n: nat) -> nat
    decreases n,
{
    if n == 0 {
        1
    } else {
        2 * power((n - 1) as nat)
    }
}

/// How many addresses a prefix leaves.
pub open spec fn subnet_size(prefix: u8) -> nat {
    power((32 - prefix) as nat)
}

/// The mask of a prefix: as many ones, then zeros.
pub open spec fn mask_value(prefix: u8) -> nat {
    (0x1_0000_0000 - subnet_size(prefix)) as nat
}

/// Whether an address is the first of a subnet.
pub open spec fn is_network(address: nat, prefix: u8) -> bool {
    address % subnet_size(prefix) == 0
}

/// Why a text is no subnet.
#[derive(Debug, PartialEq, Eq)]
pub enum SubnetError {
    NoPrefix { spec: String },
    Address { spec: String },
    Prefix { spec: String },
    Range { prefix: u8 },
    HostBits { spec: String },
}

impl SubnetError {
    /// The message shown to the user, with the text already quoted.
    pub open spec fn text_with(self, quoted: Seq<char>) -> Seq<char> {
        match self {
            SubnetError::NoPrefix { spec } => "subnet "@ + quoted
                + " must look like 192.168.106.0/24"@,
            SubnetError::Address { spec } => "invalid subnet address in "@ + quoted,
            SubnetError::Prefix { spec } => "invalid prefix length in "@ + quoted,
            SubnetError::Range { prefix } => "subnet prefix /"@ + text::dec(prefix as nat)
                + " out of range (8-29)"@,
            SubnetError::HostBits { spec } => spec@
                + " has host bits set; expected the network address"@,
        }
    }

    /// The text that the error is about.
    pub open spec fn about(self) -> Seq<char> {
        match self {
            SubnetError::NoPrefix { spec } => spec@,
            SubnetError::Address { spec } => spec@,
            SubnetError::Prefix { spec } => spec@,
            SubnetError::Range { prefix } => Seq::empty(),
            SubnetError::HostBits { spec } => spec@,
        }
    }

    /// The message shown to the user, with the text already quoted.
    pub fn message_with(&self, quoted: &str) -> (m: String)
        ensures
            m@ == self.text_with(quoted@),
    {
        match self {
            SubnetError::NoPrefix { spec: _ } => {
                let mut m: String = "subnet ".to_owned();
                m.append(quoted);
                m.append(" must look like 192.168.106.0/24");
                m
            },
            SubnetError::Address { spec: _ } => {
                let mut m: String = "invalid subnet address in ".to_owned();
                m.append(quoted);
                m
            },
            SubnetError::Prefix { spec: _ } => {
                let mut m: String = "invalid prefix length in ".to_owned();
                m.append(quoted);
                m
            },
            SubnetError::Range { prefix } => {
                let mut m: String = "subnet prefix /".to_owned();
                text::push_dec(&mut m, *prefix as u128);
                m.append(" out of range (8-29)");
                m
            },
            SubnetError::HostBits { spec } => {
                let mut m: String = spec.clone();
                m.append(" has host bits set; expected the network address");
                m
            },
        }
    }

    /// The message shown to the user.
    pub fn message(&self) -> (m: String)
        ensures
            m@ == self.text_with(text::quoted_text(self.about())),
    {
        let about: String = match self {
            SubnetError::NoPrefix { spec } => spec.clone(),
            SubnetError::Address { spec } => spec.clone(),
            SubnetError::Prefix { spec } => spec.clone(),
            SubnetError::Range { prefix: _ } => String::new(),
            SubnetError::HostBits { spec } => spec.clone(),
        };
        assert(about@ =~= self.about());
        self.message_with(text::quoted(about.as_str()).as_str())
    }
}

fn parse_octet(s: &str) -> (r: Option<u8>)
    ensures
        match r {
            Some(n) => octet_of(s@) == Some(n as nat),
            None => octet_of(s@) is None,
        },
{
    let v: Vec<char> = text::chars(s);
    if v.len() == 0 || v.len() > 3 || (v.len() > 1 && v[0] == '0') {
        return None;
    }
    let mut value: u16 = 0;
    let mut i: usize = 0;
    assert(s@.take(0) =~= Seq::<char>::empty());
    assert(text::dec_value(Seq::<char>::empty()) == 0);
    while i < v.len()
        invariant
            i <= v@.len() <= 3,
            v@ == s@,
            value == text::dec_value(s@.take(i as int)),
            i == 0 ==> value == 0,
            i == 1 ==> value < 10,
            i == 2 ==> value < 100,
            i == 3 ==> value < 1000,
            forall|k: int| 0 <= k < i ==> text::is_digit(#[trigger] s@[k]),
        decreases v@.len() - i,
    {
        let c: char = v[i];
        if !('0' <= c && c <= '9') {
            assert(!text::is_digit(s@[i as int]));
            return None;
        }
        proof {
            assert(s@.take(i + 1).drop_last() =~= s@.take(i as int));
            assert(s@.take(i + 1).last() == c);
        }
        value = value * 10 + (c as u32 - 48) as u16;
        i = i + 1;
    }
    assert(s@.take(i as int) =~= s@);
    assert(text::all_digits(s@));
    if value > 255 {
        None
    } else {
        Some(value as u8)
    }
}

/// The address that a text denotes.
pub fn parse_address(s: &str) -> (r: Option<u32>)
    ensures
        match r {
            Some(n) => address_of(s@) == Some(n as nat),
            None => address_of(s@) is None,
        },
{
    let parts: Vec<String> = text::split(s, '.');
    assert(parts@.len() == text::split_on(s@, '.').len());
    if parts.len() != 4 {
        return None;
    }
    assert(text::split_on(s@, '.')[0] == parts@[0]@);
    assert(text::split_on(s@, '.')[1] == parts@[1]@);
    assert(text::split_on(s@, '.')[2] == parts@[2]@);
    assert(text::split_on(s@, '.')[3] == parts@[3]@);
    match (
        parse_octet(parts[0].as_str()),
        parse_octet(parts[1].as_str()),
        parse_octet(parts[2].as_str()),
        parse_octet(parts[3].as_str()),
    ) {
        (Some(a), Some(b), Some(c), Some(d)) => Some(
            a as u32 * 0x100_0000 + b as u32 * 0x1_0000 + c as u32 * 0x100 + d as u32,
        ),
        _ => None,
    }
}

proof fn lemma_power(n: nat)
    requires
        n <= 32,
    ensures
        1 <= power(n) <= 0x1_0000_0000,
        n < 32 ==> power(n) < 0x1_0000_0000,
        power(32) == 0x1_0000_0000,
    decreases n,
{
    reveal_with_fuel(power, 33);
    if n > 0 {
        lemma_power((n - 1) as nat);
    }
}

fn size_of_subnet(prefix: u8) -> (n: u64)
    requires
        prefix <= 32,
    ensures
        n == subnet_size(prefix),
        1 <= n <= 0x1_0000_0000,
{
    let mut n: u64 = 1;
    let mut i: u8 = 0;
    while i < 32 - prefix
        invariant
            prefix <= 32,
            i <= 32 - prefix,
            n == power(i as nat),
            1 <= n <= 0x1_0000_0000,
        decreases 32 - prefix - i,
    {
        proof {
            lemma_power((i + 1) as nat);
        }
        n = n * 2;
        i = i + 1;
    }
    n
}

/// The mask of a prefix. A prefix of zero bits has none.
pub fn mask_for_prefix(prefix: u8) -> (mask: u32)
    requires
        1 <= prefix <= 32,
    ensures
        mask == mask_value(prefix),
{
    proof {
        lemma_power((32 - prefix) as nat);
    }
    let size: u64 = size_of_subnet(prefix);
    (0x1_0000_0000 - size) as u32
}

/// The subnet that a text denotes, with room for the addresses that guests cannot have.
pub open spec fn subnet_of(spec: Seq<char>) -> Option<(nat, nat)> {
    match text::split_once_on(spec, '/') {
        None => None,
        Some((left, right)) => match (address_of(left), text::parsed(right, 255)) {
            (Some(a), Some(p)) => if 8 <= p <= 29 && is_network(a, p as u8) {
                Some((a, p))
            } else {
                None
            },
            _ => None,
        },
    }
}

/// Whether an error says why a text is no subnet.
pub open spec fn is_subnet_error(s: Seq<char>, e: SubnetError) -> bool {
    match text::split_once_on(s, '/') {
        None => e matches SubnetError::NoPrefix { spec } && spec@ == s,
        Some((left, right)) => match (address_of(left), text::parsed(right, 255)) {
            (None, _) => e matches SubnetError::Address { spec } && spec@ == s,
            (Some(_), None) => e matches SubnetError::Prefix { spec } && spec@ == s,
            (Some(a), Some(p)) => if !(8 <= p <= 29) {
                e matches SubnetError::Range { prefix } && prefix == p
            } else {
                !is_network(a, p as u8) && (e matches SubnetError::HostBits { spec } && spec@ == s)
            },
        },
    }
}

/// Reads a subnet: the first address of it, and how many bits its addresses share.
pub fn parse_subnet(spec: &str) -> (r: Result<(u32, u8), SubnetError>)
    ensures
        match r {
            Ok((a, p)) => subnet_of(spec@) == Some((a as nat, p as nat)),
            Err(e) => subnet_of(spec@) is None && is_subnet_error(spec@, e),
        },
{
    let (left, right): (&str, &str) = match text::split_once(spec, '/') {
        None => return Err(SubnetError::NoPrefix { spec: spec.to_owned() }),
        Some(pair) => pair,
    };
    let addr: u32 = match parse_address(left) {
        None => return Err(SubnetError::Address { spec: spec.to_owned() }),
        Some(addr) => addr,
    };
    let prefix: u8 = match text::parse(right, 255) {
        None => return Err(SubnetError::Prefix { spec: spec.to_owned() }),
        Some(n) => n as u8,
    };
    if prefix < 8 || prefix > 29 {
        return Err(SubnetError::Range { prefix });
    }
    let size: u64 = size_of_subnet(prefix);
    if addr as u64 % size != 0 {
        return Err(SubnetError::HostBits { spec: spec.to_owned() });
    }
    Ok((addr, prefix))
}

/// The gateway of a subnet: its second address, which the host has.
pub fn gateway_for_subnet(subnet: u32) -> (gateway: u32)
    requires
        subnet < u32::MAX,
    ensures
        gateway == subnet + 1,
{
    subnet + 1
}

/// The gateway of a subnet that was read lies in the subnet.
pub proof fn lemma_gateway_lies_in_its_subnet(spec: Seq<char>)
    ensures
        subnet_of(spec) matches Some((a, p)) ==> {
            &&& a < u32::MAX
            &&& a + 1 < a + subnet_size(p as u8)
            &&& a + subnet_size(p as u8) <= 0x1_0000_0000
        },
{
    if let Some((a, p)) = subnet_of(spec) {
        let size = subnet_size(p as u8);
        lemma_power((32 - p) as nat);
        lemma_size_divides(p as u8);
        assert(size >= 8) by {
            reveal_with_fuel(power, 5);
            lemma_power_grows(3, (32 - p) as nat);
        }
        assert(a < 0x1_0000_0000);
        let k = a / size;
        let n = 0x1_0000_0000nat / size;
        assert(a == k * size && 0x1_0000_0000 == n * size) by (nonlinear_arith)
            requires
                size > 0,
                a % size == 0,
                0x1_0000_0000nat % size == 0,
                k == a / size,
                n == 0x1_0000_0000nat / size,
        ;
        assert(k < n) by (nonlinear_arith)
            requires
                k * size < n * size,
                size > 0,
        ;
        assert((k + 1) * size <= n * size) by (nonlinear_arith)
            requires
                k + 1 <= n,
                size > 0,
        ;
        assert((k + 1) * size == k * size + size) by (nonlinear_arith);
    }
}

proof fn lemma_power_grows(a: nat, b: nat)
    requires
        a <= b,
    ensures
        power(a) <= power(b),
    decreases b,
{
    if a < b {
        lemma_power_grows(a, (b - 1) as nat);
    }
}

proof fn lemma_size_divides(prefix: u8)
    requires
        prefix <= 32,
    ensures
        0x1_0000_0000nat % subnet_size(prefix) == 0,
    decreases prefix,
{
    let size = subnet_size(prefix);
    lemma_power((32 - prefix) as nat);
    if prefix > 0 {
        let larger = subnet_size((prefix - 1) as u8);
        lemma_size_divides((prefix - 1) as u8);
        lemma_power((32 - prefix + 1) as nat);
        assert(larger == 2 * size);
        let n = 0x1_0000_0000nat / larger;
        assert(0x1_0000_0000nat % size == 0) by (nonlinear_arith)
            requires
                larger == 2 * size,
                size > 0,
                0x1_0000_0000nat % larger == 0,
                n == 0x1_0000_0000nat / larger,
        {
            assert(0x1_0000_0000nat == n * larger);
            assert(n * larger == (2 * n) * size);
            vstd::arithmetic::div_mod::lemma_mod_multiples_basic((2 * n) as int, size as int);
        }
    } else {
        assert(size == 0x1_0000_0000);
    }
}

// ---------------------------------------------------------------------------
// The framework
// ---------------------------------------------------------------------------

/// The status of a call that succeeded.
pub const VMNET_SUCCESS: u32 = 1000;

/// How many packets are read at once.
pub const READ_BATCH: usize = 32;

/// The largest frame that goes through the guest's socket.
pub const MAX_FRAME_SIZE: usize = 65550;

/// The smallest size of packets that is provided for.
pub const MIN_PACKET_SIZE: u64 = 1514;

/// The name of a status.
pub open spec fn status_name(status: u32) -> Seq<char> {
    if status == 1001 {
        "VMNET_FAILURE"@
    } else if status == 1002 {
        "VMNET_MEM_FAILURE"@
    } else if status == 1003 {
        "VMNET_INVALID_ARGUMENT"@
    } else if status == 1004 {
        "VMNET_SETUP_INCOMPLETE"@
    } else if status == 1005 {
        "VMNET_INVALID_ACCESS"@
    } else if status == 1006 {
        "VMNET_PACKET_TOO_BIG"@
    } else if status == 1007 {
        "VMNET_BUFFER_EXHAUSTED"@
    } else if status == 1008 {
        "VMNET_TOO_MANY_PACKETS"@
    } else if status == 1009 {
        "VMNET_SHARING_SERVICE_BUSY"@
    } else if status == 1010 {
        "VMNET_NOT_AUTHORIZED"@
    } else {
        "unknown"@
    }
}

/// The message for a call that failed.
pub fn vmnet_error(call: &str, status: u32) -> (m: String)
    ensures
        m@ == call@ + " failed: "@ + status_name(status) + " ("@ + text::dec(status as nat) + ")"@,
{
    let name: &str = if status == 1001 {
        "VMNET_FAILURE"
    } else if status == 1002 {
        "VMNET_MEM_FAILURE"
    } else if status == 1003 {
        "VMNET_INVALID_ARGUMENT"
    } else if status == 1004 {
        "VMNET_SETUP_INCOMPLETE"
    } else if status == 1005 {
        "VMNET_INVALID_ACCESS"
    } else if status == 1006 {
        "VMNET_PACKET_TOO_BIG"
    } else if status == 1007 {
        "VMNET_BUFFER_EXHAUSTED"
    } else if status == 1008 {
        "VMNET_TOO_MANY_PACKETS"
    } else if status == 1009 {
        "VMNET_SHARING_SERVICE_BUSY"
    } else if status == 1010 {
        "VMNET_NOT_AUTHORIZED"
    } else {
        "unknown"
    };
    let mut m: String = call.to_owned();
    m.append(" failed: ");
    m.append(name);
    m.append(" (");
    text::push_dec(&mut m, status as u128);
    m.append(")");
    m
}

/// The label of an interface's queue. A label that the host cannot take is left out.
pub fn queue_label(label: &str) -> (s: String)
    ensures
        s@ == (if label@.contains('\0') {
            "lnx.vmnet"@
        } else {
            "lnx.vmnet."@ + label@
        }),
{
    if text::contains_char(label, '\0') {
        "lnx.vmnet".to_owned()
    } else {
        let mut s: String = "lnx.vmnet.".to_owned();
        s.append(label);
        s
    }
}

/// Judges the start of an interface: the size of its packets, or why it did not start.
/// `answer` is its status and packet size, if it answered in time.
pub fn interface_started(answer: Option<(u32, u64)>) -> (r: Result<u64, String>)
    ensures
        match answer {
            None => r matches Err(m) && m@ == "vmnet interface start timed out"@,
            Some((status, size)) => if status != VMNET_SUCCESS {
                r matches Err(m) && m@ == "vmnet_interface_start_with_network"@ + " failed: "@
                    + status_name(status) + " ("@ + text::dec(status as nat) + ")"@
            } else {
                r == Ok::<u64, String>(
                    if size < MIN_PACKET_SIZE {
                        MIN_PACKET_SIZE
                    } else {
                        size
                    },
                )
            },
        },
{
    match answer {
        None => Err("vmnet interface start timed out".to_owned()),
        Some((status, size)) => if status != VMNET_SUCCESS {
            Err(vmnet_error("vmnet_interface_start_with_network", status))
        } else if size < MIN_PACKET_SIZE {
            Ok(MIN_PACKET_SIZE)
        } else {
            Ok(size)
        },
    }
}

/// What to do with packets that were read from the network.
#[derive(Clone, Copy, PartialEq, Eq, Structural, Debug)]
pub enum ReadStep {
    /// There are none: wait for the next event.
    Stop,
    /// Send this many to the guest, then wait for the next event.
    Last(usize),
    /// Send this many to the guest, then read again.
    More(usize),
}

/// Decides what to do with packets that were read from the network: a full batch means
/// that there may be more.
pub fn read_step(stopped: bool, status: u32, count: i32) -> (r: ReadStep)
    ensures
        r == (if stopped || status != VMNET_SUCCESS || count <= 0 {
            ReadStep::Stop
        } else if count < READ_BATCH {
            ReadStep::Last(count as usize)
        } else {
            ReadStep::More(READ_BATCH)
        }),
        r matches ReadStep::Last(n) ==> 0 < n < 32 && n == count,
        r matches ReadStep::More(n) ==> n == 32 && count >= 32,
{
    if stopped || status != VMNET_SUCCESS || count <= 0 {
        ReadStep::Stop
    } else if (count as usize) < READ_BATCH {
        ReadStep::Last(count as usize)
    } else {
        ReadStep::More(READ_BATCH)
    }
}

/// What came of waiting for a frame of the guest.
#[derive(Clone, Copy, PartialEq, Eq, Structural, Debug)]
pub enum PumpRead {
    /// A frame of this size.
    Frame(usize),
    /// An empty datagram, which does not mean the end.
    Empty,
    /// No frame came in time, or the wait was interrupted.
    Nothing,
    Failed,
}

/// What the pump of a guest's frames does next.
#[derive(Clone, Copy, PartialEq, Eq, Structural, Debug)]
pub enum PumpStep {
    /// Write the frame to the network. One that is refused is dropped.
    Write(usize),
    /// Wait for the next frame.
    Wait,
    Stop,
}

/// Decides what the pump of a guest's frames does next.
pub fn pump_step(read: PumpRead, stopped: bool) -> (r: PumpStep)
    ensures
        r == (match read {
            PumpRead::Frame(n) => PumpStep::Write(n),
            PumpRead::Empty => if stopped {
                PumpStep::Stop
            } else {
                PumpStep::Wait
            },
            PumpRead::Nothing => if stopped {
                PumpStep::Stop
            } else {
                PumpStep::Wait
            },
            PumpRead::Failed => PumpStep::Stop,
        }),
{
    match read {
        PumpRead::Frame(n) => PumpStep::Write(n),
        PumpRead::Empty => if stopped {
            PumpStep::Stop
        } else {
            PumpStep::Wait
        },
        PumpRead::Nothing => if stopped {
            PumpStep::Stop
        } else {
            PumpStep::Wait
        },
        PumpRead::Failed => PumpStep::Stop,
    }
}

// ---------------------------------------------------------------------------
// Laws of addresses and subnets
// ---------------------------------------------------------------------------

proof fn lemma_octet(n: nat)
    requires
        n <= 255,
    ensures
        octet_of(text::dec(n)) == Some(n),
        !text::dec(n).contains('.'),
        !text::dec(n).contains('/'),
{
    text::lemma_dec_round_trip(n);
    let d = text::dec(n);
    reveal_with_fuel(text::dec, 3);
    assert forall|i: int| 0 <= i < d.len() implies d[i] != '.' && d[i] != '/' by {
        assert(text::is_digit(d[i]));
    }
    if n < 10 {
        assert(d.len() == 1);
    } else if n < 100 {
        assert(d.len() == 2);
        assert(d[0] == text::digit_char((n / 10) as int));
    } else {
        assert(d.len() == 3);
        assert(d[0] == text::digit_char((n / 100) as int));
    }
}

/// An address is read from its four numbers, the first of which counts most.
pub proof fn lemma_address_round_trip(a: u8, b: u8, c: u8, d: u8)
    ensures
        address_of(
            text::dec(a as nat) + seq!['.'] + text::dec(b as nat) + seq!['.'] + text::dec(c as nat)
                + seq!['.'] + text::dec(d as nat),
        ) == Some(
            (0x100_0000 * (a as nat) + 0x1_0000 * (b as nat) + 0x100 * (c as nat)
                + d as nat) as nat,
        ),
{
    let (ta, tb, tc, td) = (
        text::dec(a as nat),
        text::dec(b as nat),
        text::dec(c as nat),
        text::dec(d as nat),
    );
    lemma_octet(a as nat);
    lemma_octet(b as nat);
    lemma_octet(c as nat);
    lemma_octet(d as nat);
    text::lemma_split_of_one(ta, '.');
    text::lemma_split_of_one(tb, '.');
    text::lemma_split_of_one(tc, '.');
    text::lemma_split_of_one(td, '.');
    let x = ta + seq!['.'] + tb;
    let y = x + seq!['.'] + tc;
    let z = y + seq!['.'] + td;
    text::lemma_split_of_two(ta, tb, '.');
    text::lemma_split_of_two(x, tc, '.');
    text::lemma_split_of_two(y, td, '.');
    assert(text::split_on(z, '.') =~= seq![ta, tb, tc, td]);
}

/// A subnet is read from its address and the length of its prefix, for every prefix from
/// 8 to 29 whose host bits are clear in the address, and no other.
pub proof fn lemma_subnet_round_trip(left: Seq<char>, prefix: u8)
    requires
        !left.contains('/'),
    ensures
        subnet_of(left + seq!['/'] + text::dec(prefix as nat)) == (match address_of(left) {
            Some(a) => if 8 <= prefix <= 29 && a % power((32 - prefix) as nat) == 0 {
                Some((a, prefix as nat))
            } else {
                None
            },
            None => None,
        }),
{
    text::lemma_split_once_pair(left, '/', text::dec(prefix as nat));
    text::lemma_parse_decimal(prefix as nat, 255);
}

/// A mask has as many set bits in front as its prefix is long and clear ones behind: it is
/// all but one of the blocks of the subnet's size.
#[verifier::spinoff_prover]
#[verifier::rlimit(40)]
pub proof fn lemma_mask(prefix: u8)
    requires
        prefix <= 32,
    ensures
        power(prefix as nat) * subnet_size(prefix) == 0x1_0000_0000,
        mask_value(prefix) == (power(prefix as nat) - 1) * subnet_size(prefix),
        power(0) == 1,
        power(1) == 2,
        prefix < 32 ==> subnet_size(prefix) == 2 * subnet_size((prefix + 1) as u8),
        subnet_size(32) == 1,
    decreases prefix,
{
    reveal_with_fuel(power, 2);
    lemma_power((32 - prefix) as nat);
    let size = subnet_size(prefix);
    if prefix == 0 {
        assert(power(0) == 1);
        lemma_power(32);
    } else {
        lemma_mask((prefix - 1) as u8);
        assert(power(prefix as nat) == 2 * power((prefix - 1) as nat));
        let p = power((prefix - 1) as nat);
        assert(subnet_size((prefix - 1) as u8) == 2 * size);
        assert((2 * p) * size == p * (2 * size)) by (nonlinear_arith);
    }
    let q = power(prefix as nat);
    assert((q - 1) * size == q * size - size) by (nonlinear_arith);
}

/// Which error a text that is no subnet gives: no prefix, no address, no number behind the
/// slash, a prefix out of range, or host bits that are set.
pub proof fn lemma_which_subnet_error(left: Seq<char>, right: Seq<char>, e: SubnetError)
    requires
        !left.contains('/'),
    ensures
        is_subnet_error(left, e) ==> e is NoPrefix,
        is_subnet_error(left + seq!['/'] + right, e) ==> {
            &&& !(e is NoPrefix)
            &&& e is Address <==> address_of(left) is None
            &&& e is Prefix <==> address_of(left) is Some && text::parsed(right, 255) is None
            &&& e is Range <==> address_of(left) is Some && (text::parsed(right, 255) matches Some(
                p,
            ) && (p < 8 || p > 29))
            &&& e is HostBits ==> (address_of(left) matches Some(a) && (text::parsed(
                right,
                255,
            ) matches Some(p) && 8 <= p <= 29 && a % power((32 - p) as nat) != 0))
        },
{
    text::lemma_split_once_pair(left, '/', right);
    text::lemma_split_once(left, '/');
    if let Some((a, b)) = text::split_once_on(left, '/') {
        assert(left[a.len() as int] == '/');
        assert(left.contains('/'));
    }
}

/// A status has a name exactly from 1001 to 1010, and two of them have two names.
#[verifier::spinoff_prover]
#[verifier::rlimit(40)]
pub proof fn lemma_status_names(a: u32, b: u32)
    ensures
        status_name(a) == "unknown"@ <==> a < 1001 || a > 1010,
        1001 <= a <= 1010 && status_name(a) == status_name(b) ==> a == b,
{
    reveal_strlit("VMNET_FAILURE");
    reveal_strlit("VMNET_MEM_FAILURE");
    reveal_strlit("VMNET_INVALID_ARGUMENT");
    reveal_strlit("VMNET_SETUP_INCOMPLETE");
    reveal_strlit("VMNET_INVALID_ACCESS");
    reveal_strlit("VMNET_PACKET_TOO_BIG");
    reveal_strlit("VMNET_BUFFER_EXHAUSTED");
    reveal_strlit("VMNET_TOO_MANY_PACKETS");
    reveal_strlit("VMNET_SHARING_SERVICE_BUSY");
    reveal_strlit("VMNET_NOT_AUTHORIZED");
    reveal_strlit("unknown");
    assert("VMNET_FAILURE"@.len() == 13 && "VMNET_MEM_FAILURE"@.len() == 17);
    assert("VMNET_INVALID_ARGUMENT"@.len() == 22 && "VMNET_SETUP_INCOMPLETE"@.len() == 22);
    assert("VMNET_INVALID_ACCESS"@.len() == 20 && "VMNET_PACKET_TOO_BIG"@.len() == 20);
    assert("VMNET_BUFFER_EXHAUSTED"@.len() == 22 && "VMNET_TOO_MANY_PACKETS"@.len() == 22);
    assert("VMNET_SHARING_SERVICE_BUSY"@.len() == 26 && "VMNET_NOT_AUTHORIZED"@.len() == 20);
    assert("unknown"@.len() == 7);
    assert("VMNET_INVALID_ARGUMENT"@[6] == 'I' && "VMNET_SETUP_INCOMPLETE"@[6] == 'S'
        && "VMNET_BUFFER_EXHAUSTED"@[6] == 'B' && "VMNET_TOO_MANY_PACKETS"@[6] == 'T');
    assert("VMNET_INVALID_ACCESS"@[6] == 'I' && "VMNET_PACKET_TOO_BIG"@[6] == 'P'
        && "VMNET_NOT_AUTHORIZED"@[6] == 'N');
}

} // verus!
