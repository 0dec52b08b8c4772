//! Numbers as bytes, in little-endian and big-endian order.
use vstd::prelude::*;

verus! {

/// The number that bytes denote, the least significant one first.
pub open spec fn le_value(s: Seq<u8>) -> nat
    decreases s.len(),
{
    if s.len() == 0 {
        0
    } else {
        s[0] as nat + 256 * le_value(s.skip(1))
    }
}

/// The `width` lowest bytes of a number, the least significant one first.
pub open spec fn le_bytes(n: nat, width: nat) -> Seq<u8>
    decreases width,
{
    if width == 0 {
        Seq::empty()
    } else {
        seq![(n % 256) as u8] + le_bytes(n / 256, (width - 1) as nat)
    }
}

/// The number that bytes denote, the most significant one first.
pub open spec fn be_value(s: Seq<u8>) -> nat
    decreases s.len(),
{
    if s.len() == 0 {
        0
    } else {
        be_value(s.drop_last()) * 256 + s.last() as nat
    }
}

/// The `width` lowest bytes of a number, the most significant one first.
pub open spec fn be_bytes(n: nat, width: nat) -> Seq<u8>
    decreases width,
{
    if width == 0 {
        Seq::empty()
    } else {
        be_bytes(n / 256, (width - 1) as nat).push((n % 256) as u8)
    }
}

/// 256 to the power of `width`.
pub open spec fn byte_range(width: nat) -> nat
    decreases width,
{
    if width == 0 {
        1
    } else {
        256 * byte_range((width - 1) as nat)
    }
}

/// What bytes denote fits in their range.
pub proof fn lemma_le_fits(s: Seq<u8>)
    ensures
        le_value(s) < byte_range(s.len()),
    decreases s.len(),
{
    if s.len() > 0 {
        lemma_le_fits(s.skip(1));
    }
}

proof fn lemma_be_value_bound(s: Seq<u8>)
    ensures
        be_value(s) < byte_range(s.len()),
    decreases s.len(),
{
    if s.len() > 0 {
        lemma_be_value_bound(s.drop_last());
    }
}

/// Reading the little-endian bytes of a number that fits gives the number back.
pub proof fn lemma_le_round_trip(n: nat, width: nat)
    requires
        n < byte_range(width),
    ensures
        le_bytes(n, width).len() == width,
        le_value(le_bytes(n, width)) == n,
    decreases width,
{
    if width > 0 {
        lemma_le_round_trip(n / 256, (width - 1) as nat);
        assert(le_bytes(n, width).skip(1) =~= le_bytes(n / 256, (width - 1) as nat));
    }
}

/// Reading the big-endian bytes of a number that fits gives the number back.
pub proof fn lemma_be_round_trip(n: nat, width: nat)
    requires
        n < byte_range(width),
    ensures
        be_bytes(n, width).len() == width,
        be_value(be_bytes(n, width)) == n,
    decreases width,
{
    if width > 0 {
        lemma_be_round_trip(n / 256, (width - 1) as nat);
        assert(be_bytes(n, width).drop_last() =~= be_bytes(n / 256, (width - 1) as nat));
    }
}

/// The range of eight bytes is that of a `u64`, and that of four bytes of a `u32`.
pub proof fn lemma_byte_ranges()
    ensures
        byte_range(1) == 0x100,
        byte_range(2) == 0x1_0000,
        byte_range(4) == 0x1_0000_0000,
        byte_range(8) == 0x1_0000_0000_0000_0000,
{
    reveal_with_fuel(byte_range, 9);
}

/// Reads up to eight bytes as a little-endian number.
pub fn read_le(b: &[u8]) -> (n: u64)
    requires
        b@.len() <= 8,
    ensures
        n == le_value(b@),
{
    let mut n: u64 = 0;
    let mut i: usize = b.len();
    proof {
        assert(b@.skip(b@.len() as int) =~= Seq::<u8>::empty());
        reveal_with_fuel(byte_range, 9);
    }
    while i > 0
        invariant
            i <= b@.len() <= 8,
            n == le_value(b@.skip(i as int)),
        decreases i,
    {
        proof {
            let rest = b@.skip(i - 1);
            assert(rest.skip(1) =~= b@.skip(i as int));
            lemma_le_fits(rest);
            reveal_with_fuel(byte_range, 9);
        }
        n = n * 256 + b[i - 1] as u64;
        i = i - 1;
    }
    assert(b@.skip(0) =~= b@);
    n
}

/// Reads up to eight bytes as a big-endian number.
pub fn read_be(b: &[u8]) -> (n: u64)
    requires
        b@.len() <= 8,
    ensures
        n == be_value(b@),
{
    let mut n: u64 = 0;
    let mut i: usize = 0;
    while i < b.len()
        invariant
            i <= b@.len() <= 8,
            n == be_value(b@.take(i as int)),
        decreases b@.len() - i,
    {
        proof {
            let next = b@.take(i + 1);
            assert(next.drop_last() =~= b@.take(i as int));
            lemma_be_value_bound(next);
            reveal_with_fuel(byte_range, 9);
        }
        n = n * 256 + b[i] as u64;
        i = i + 1;
    }
    assert(b@.take(i as int) =~= b@);
    n
}

/// Appends the `width` lowest bytes of `n`, the least significant one first.
pub fn push_le(out: &mut Vec<u8>, n: u64, width: usize)
    ensures
        final(out)@ == old(out)@ + le_bytes(n as nat, width as nat),
    decreases width,
{
    if width > 0 {
        out.push((n % 256) as u8);
        push_le(out, n / 256, width - 1);
        assert(old(out)@.push((n % 256) as u8) + le_bytes((n / 256) as nat, (width - 1) as nat)
            =~= old(out)@ + (seq![(n % 256) as u8] + le_bytes(
            (n / 256) as nat,
            (width - 1) as nat,
        )));
    } else {
        assert(old(out)@ + Seq::<u8>::empty() =~= old(out)@);
    }
}

/// Appends the `width` lowest bytes of `n`, the most significant one first.
pub fn push_be(out: &mut Vec<u8>, n: u64, width: usize)
    ensures
        final(out)@ == old(out)@ + be_bytes(n as nat, width as nat),
    decreases width,
{
    if width > 0 {
        push_be(out, n / 256, width - 1);
        out.push((n % 256) as u8);
        assert((old(out)@ + be_bytes((n / 256) as nat, (width - 1) as nat)).push((n % 256) as u8)
            =~= old(out)@ + be_bytes((n / 256) as nat, (width - 1) as nat).push((n % 256) as u8));
    } else {
        assert(old(out)@ + Seq::<u8>::empty() =~= old(out)@);
    }
}

/// Appends bytes.
pub fn push_all(out: &mut Vec<u8>, b: &[u8])
    ensures
        final(out)@ == old(out)@ + b@,
{
    let mut i: usize = 0;
    assert(old(out)@ + b@.take(0) =~= old(out)@);
    while i < b.len()
        invariant
            i <= b@.len(),
            out@ == old(out)@ + b@.take(i as int),
        decreases b@.len() - i,
    {
        out.push(b[i]);
        i = i + 1;
        assert(out@ =~= old(out)@ + b@.take(i as int));
    }
    assert(b@.take(i as int) =~= b@);
}

/// The bytes from `from` up to `to`.
pub fn part(b: &[u8], from: usize, to: usize) -> (r: Vec<u8>)
    requires
        from <= to <= b@.len(),
    ensures
        r@ == b@.subrange(from as int, to as int),
{
    let mut r: Vec<u8> = Vec::new();
    let mut i: usize = from;
    while i < to
        invariant
            from <= i <= to <= b@.len(),
            r@ == b@.subrange(from as int, i as int),
        decreases to - i,
    {
        r.push(b[i]);
        i = i + 1;
        assert(r@ =~= b@.subrange(from as int, i as int));
    }
    r
}

/// Whether every byte is zero.
pub open spec fn are_zero(s: Seq<u8>) -> bool {
    forall|i: int| 0 <= i < s.len() ==> #[trigger] s[i] == 0
}

/// Whether every byte is zero.
pub fn all_zero(s: &[u8]) -> (r: bool)
    ensures
        r == are_zero(s@),
{
    let mut i: usize = 0;
    while i < s.len()
        invariant
            i <= s@.len(),
            forall|k: int| 0 <= k < i ==> #[trigger] s@[k] == 0,
        decreases s@.len() - i,
    {
        if s[i] != 0 {
            return false;
        }
        i = i + 1;
    }
    true
}

/// In little-endian bytes the first counts once and each further one 256 times as much as
/// the one before it; in big-endian bytes it is the last that counts once.
pub proof fn lemma_places(b: u8, rest: Seq<u8>)
    ensures
        le_value(seq![b] + rest) == b + 256 * le_value(rest),
        be_value(rest.push(b)) == b + 256 * be_value(rest),
        le_value(seq![b]) == b,
        be_value(seq![b]) == b,
{
    reveal_with_fuel(le_value, 2);
    reveal_with_fuel(be_value, 2);
    assert((seq![b] + rest).skip(1) =~= rest);
    assert(rest.push(b).drop_last() =~= rest);
    assert(seq![b].skip(1) =~= Seq::<u8>::empty());
    assert(seq![b].drop_last() =~= Seq::<u8>::empty());
}

} // verus!
