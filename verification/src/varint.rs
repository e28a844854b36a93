//! Variable-length integers: seven bits per byte, least significant group first.
use vstd::prelude::*;

verus! {

/// A number below 2^32 in groups of seven bits, all but the last with the high bit set.
pub open spec fn varint_bytes(value: nat) -> Seq<u8>
    decreases value,
{
    if value < 128 {
        seq![value as u8]
    } else {
        seq![(value % 128 + 128) as u8] + varint_bytes(value / 128)
    }
}

/// A signed number, written as the unsigned number with the same 32 bits.
pub open spec fn encoded_varint(value: i32) -> Seq<u8> {
    varint_bytes((value as u32) as nat)
}

/// How many bytes stand before the first byte without the high bit.
pub open spec fn continued(bytes: Seq<u8>) -> nat
    decreases bytes.len(),
{
    if bytes.len() == 0 || bytes[0] < 128 {
        0
    } else {
        1 + continued(bytes.skip(1))
    }
}

/// The number that the first `count` bytes stand for.
pub open spec fn groups_value(bytes: Seq<u8>, count: nat) -> nat
    decreases count,
{
    if count == 0 {
        0
    } else {
        (bytes[0] % 128) as nat + 128 * groups_value(bytes.skip(1), (count - 1) as nat)
    }
}

/// The signed number whose 32 bits are the low bits of `value`.
pub open spec fn low_bits(value: nat) -> i32 {
    ((value % 0x1_0000_0000) as u32) as i32
}

/// How reading a variable-length integer from the front of some bytes ends.
pub enum VarIntOutcome {
    /// The number, and how many bytes it takes.
    Complete(i32, nat),
    /// The bytes end before the number does.
    Truncated,
    /// The number takes more than five bytes.
    TooLong,
}

/// Reads a variable-length integer from the front of `bytes`.
pub open spec fn decoded_varint(bytes: Seq<u8>) -> VarIntOutcome {
    let n = continued(bytes);
    if n < 5 && n < bytes.len() {
        VarIntOutcome::Complete(low_bits(groups_value(bytes, n + 1)), n + 1)
    } else if n >= 5 {
        VarIntOutcome::TooLong
    } else {
        VarIntOutcome::Truncated
    }
}

/// The place value of the group at `index`.
pub open spec fn group_weight(index: nat) -> nat
    decreases index,
{
    if index == 0 {
        1
    } else {
        128 * group_weight((index - 1) as nat)
    }
}

pub proof fn lemma_weights()
    ensures
        group_weight(0) == 1,
        group_weight(1) == 128,
        group_weight(2) == 16384,
        group_weight(3) == 2097152,
        group_weight(4) == 268435456,
        group_weight(5) == 34359738368,
{
}

pub proof fn lemma_continued_bound(bytes: Seq<u8>)
    ensures
        continued(bytes) <= bytes.len(),
        forall|k: int| 0 <= k < continued(bytes) ==> #[trigger] bytes[k] >= 128,
        continued(bytes) < bytes.len() ==> bytes[continued(bytes) as int] < 128,
    decreases bytes.len(),
{
    if bytes.len() > 0 && bytes[0] >= 128 {
        let rest = bytes.skip(1);
        lemma_continued_bound(rest);
        assert forall|k: int| 0 <= k < continued(bytes) implies #[trigger] bytes[k] >= 128 by {
            if k > 0 {
                assert(bytes[k] == rest[k - 1]);
            }
        }
    }
}

/// The first byte without the high bit decides how many bytes stand before it.
pub proof fn lemma_continued_is(bytes: Seq<u8>, n: nat)
    requires
        n < bytes.len(),
        forall|k: int| 0 <= k < n ==> #[trigger] bytes[k] >= 128,
        bytes[n as int] < 128,
    ensures
        continued(bytes) == n,
    decreases n,
{
    if n > 0 {
        let rest = bytes.skip(1);
        lemma_continued_is(rest, (n - 1) as nat);
    }
}

pub proof fn lemma_continued_at_least(bytes: Seq<u8>, n: nat)
    requires
        n <= bytes.len(),
        forall|k: int| 0 <= k < n ==> #[trigger] bytes[k] >= 128,
    ensures
        continued(bytes) >= n,
    decreases n,
{
    if n > 0 {
        let rest = bytes.skip(1);
        lemma_continued_at_least(rest, (n - 1) as nat);
    }
}

/// Appending a group to `count` groups adds its value at the next place.
pub proof fn lemma_groups_value_extends(bytes: Seq<u8>, count: nat)
    requires
        count < bytes.len(),
    ensures
        groups_value(bytes, count + 1) == groups_value(bytes, count) + (bytes[count as int] % 128)
            * group_weight(count),
    decreases count,
{
    let rest = bytes.skip(1);
    if count == 0 {
        assert(groups_value(rest, 0) == 0);
        assert(group_weight(0) == 1);
    } else {
        lemma_groups_value_extends(rest, (count - 1) as nat);
        let g = (bytes[count as int] % 128) as nat;
        let w = group_weight((count - 1) as nat);
        assert(128 * (groups_value(rest, (count - 1) as nat) + g * w) == 128 * groups_value(
            rest,
            (count - 1) as nat,
        ) + g * (128 * w)) by (nonlinear_arith);
    }
}

/// A number below 2^32 takes between one and five bytes.
pub proof fn lemma_varint_length(value: nat)
    requires
        value < 0x1_0000_0000,
    ensures
        1 <= varint_bytes(value).len() <= 5,
{
    reveal_with_fuel(varint_bytes, 5);
}

/// The bytes of a number, whatever follows them, are read back as that number.
pub proof fn lemma_varint_read_back(value: nat, tail: Seq<u8>)
    ensures
        continued(varint_bytes(value) + tail) == varint_bytes(value).len() - 1,
        groups_value(varint_bytes(value) + tail, varint_bytes(value).len()) == value,
        varint_bytes(value).len() >= 1,
    decreases value,
{
    let bytes = varint_bytes(value) + tail;
    if value < 128 {
        assert(groups_value(bytes, 1) == (bytes[0] % 128) as nat + 128 * groups_value(
            bytes.skip(1),
            0,
        ));
    } else {
        lemma_varint_read_back(value / 128, tail);
        assert(bytes.skip(1) =~= varint_bytes(value / 128) + tail);
    }
}

/// Writing a signed number and reading it back gives the number, and nothing of what
/// follows it is consumed.
pub proof fn lemma_varint_round_trip(value: i32, tail: Seq<u8>)
    ensures
        decoded_varint(encoded_varint(value) + tail) == VarIntOutcome::Complete(
            value,
            encoded_varint(value).len(),
        ),
{
    let v = (value as u32) as nat;
    lemma_varint_length(v);
    lemma_varint_read_back(v, tail);
    assert((value as u32) as i32 == value) by (bit_vector);
}

/// Two signed numbers with the same bytes are equal.
pub proof fn lemma_varint_injective(a: i32, b: i32)
    requires
        encoded_varint(a) == encoded_varint(b),
    ensures
        a == b,
{
    lemma_varint_round_trip(a, Seq::empty());
    lemma_varint_round_trip(b, Seq::empty());
}

/// Appends the bytes of a signed number.
pub fn write_varint(output: &mut Vec<u8>, value: i32)
    ensures
        final(output)@ == old(output)@ + encoded_varint(value),
{
    let mut rest: u32 = value as u32;
    let ghost start = output@;
    while rest >= 128
        invariant
            start + encoded_varint(value) == output@ + varint_bytes(rest as nat),
        decreases rest,
    {
        output.push((rest % 128) as u8 + 128);
        rest = rest / 128;
    }
    output.push(rest as u8);
}

/// A number on the wire: seven bits to the byte, the lowest first, and the high bit on all
/// bytes but the last. A signed number has the bits of the unsigned one.
pub proof fn lemma_varint_on_the_wire(value: i32)
    ensures
        ({
            let bytes = encoded_varint(value);
            let number = (value as u32) as nat;
            &&& number < 128 ==> bytes == seq![number as u8]
            &&& 128 <= number < 128 * 128 ==> bytes == seq![
                (number % 128 + 128) as u8,
                (number / 128) as u8,
            ]
            &&& 1 <= bytes.len() <= 5
            &&& forall|i: int| 0 <= i < bytes.len() - 1 ==> (#[trigger] bytes[i]) >= 128
            &&& bytes.last() < 128
            &&& bytes[0] as nat % 128 == number % 128
        }),
{
    let number = (value as u32) as nat;
    lemma_varint_length(number);
    lemma_high_bits(number);
    if 128 <= number < 128 * 128 {
        assert(varint_bytes(number) =~= seq![(number % 128 + 128) as u8] + varint_bytes(
            number / 128,
        ));
        assert(varint_bytes(number) =~= seq![(number % 128 + 128) as u8, (number / 128) as u8]);
    }
}

proof fn lemma_high_bits(number: nat)
    ensures
        varint_bytes(number).len() >= 1,
        forall|i: int|
            0 <= i < varint_bytes(number).len() - 1 ==> (#[trigger] varint_bytes(number)[i]) >= 128,
        varint_bytes(number).last() < 128,
        varint_bytes(number)[0] as nat % 128 == number % 128,
    decreases number,
{
    if number >= 128 {
        lemma_high_bits(number / 128);
        let rest = varint_bytes(number / 128);
        assert forall|i: int| 0 <= i < varint_bytes(number).len() - 1 implies (
        #[trigger] varint_bytes(number)[i]) >= 128 by {
            if i > 0 {
                assert(varint_bytes(number)[i] == rest[i - 1]);
            }
        }
        assert(varint_bytes(number).last() == rest.last());
    }
}

} // verus!
