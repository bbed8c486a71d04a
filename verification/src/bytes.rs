//! Small operations on byte sequences that the formats are built from.

use vstd::arithmetic::div_mod::lemma_div_denominator;
use vstd::arithmetic::power::{lemma_pow0, lemma_pow_positive, pow};
use vstd::prelude::*;

verus! {

/// `value` written in `len` bytes, most significant first.
pub open spec fn be_bytes(value: nat, len: nat) -> Seq<u8>
    decreases len,
{
    if len == 0 {
        seq![]
    } else {
        be_bytes(value / 256, (len - 1) as nat).push((value % 256) as u8)
    }
}

/// The number `bytes` stand for, most significant first.
pub open spec fn be_value(bytes: Seq<u8>) -> nat
    decreases bytes.len(),
{
    if bytes.len() == 0 {
        0
    } else {
        be_value(bytes.drop_last()) * 256 + bytes.last() as nat
    }
}

/// `value` written in `len` bytes, least significant first.
pub open spec fn le_bytes(value: nat, len: nat) -> Seq<u8>
    decreases len,
{
    if len == 0 {
        seq![]
    } else {
        seq![(value % 256) as u8] + le_bytes(value / 256, (len - 1) as nat)
    }
}

/// `data` with `part` written over it from `at`.
pub open spec fn spliced(data: Seq<u8>, at: int, part: Seq<u8>) -> Seq<u8> {
    Seq::new(
        data.len(),
        |p: int| if at <= p < at + part.len() { part[p - at] } else { data[p] },
    )
}

/// Whether `bytes` holds nothing but zeros.
pub open spec fn all_zero(bytes: Seq<u8>) -> bool {
    forall|p: int| 0 <= p < bytes.len() ==> #[trigger] bytes[p] == 0
}

/// `value` written in `len` bytes occupies `len` bytes.
pub broadcast proof fn lemma_be_bytes_len(value: nat, len: nat)
    ensures
        #[trigger] be_bytes(value, len).len() == len,
    decreases len,
{
    if len > 0 {
        lemma_be_bytes_len(value / 256, (len - 1) as nat);
    }
}

/// `value` written in `len` bytes occupies `len` bytes.
pub broadcast proof fn lemma_le_bytes_len(value: nat, len: nat)
    ensures
        #[trigger] le_bytes(value, len).len() == len,
    decreases len,
{
    if len > 0 {
        lemma_le_bytes_len(value / 256, (len - 1) as nat);
    }
}

/// Whether `left` and `right` hold the same bytes.
pub(crate) fn same_bytes(left: &[u8], right: &[u8]) -> (same: bool)
    ensures
        same == (left@ == right@),
{
    if left.len() != right.len() {
        return false;
    }
    let mut index: usize = 0;
    while index < left.len()
        invariant
            index <= left@.len(),
            left@.len() == right@.len(),
            forall|p: int| 0 <= p < index ==> left@[p] == right@[p],
        decreases left@.len() - index,
    {
        if left[index] != right[index] {
            return false;
        }
        index += 1;
    }
    assert(left@ =~= right@);
    true
}

/// Whether `bytes` holds nothing but zeros.
pub(crate) fn is_all_zero(bytes: &[u8]) -> (zero: bool)
    ensures
        zero == all_zero(bytes@),
{
    let mut index: usize = 0;
    while index < bytes.len()
        invariant
            index <= bytes@.len(),
            forall|p: int| 0 <= p < index ==> #[trigger] bytes@[p] == 0,
        decreases bytes@.len() - index,
    {
        if bytes[index] != 0 {
            assert(bytes@[index as int] != 0);
            return false;
        }
        index += 1;
    }
    true
}

/// Copy the `N` bytes of `data` that start at `at`.
pub(crate) fn load<const N: usize>(data: &[u8], at: usize) -> (out: [u8; N])
    requires
        at + N <= data@.len(),
    ensures
        out@ == data@.subrange(at as int, at + N),
{
    let mut out = [0u8; N];
    let mut index: usize = 0;
    while index < N
        invariant
            index <= N,
            at + N <= data.len(),
            forall|p: int| 0 <= p < index ==> out@[p] == data@[at + p],
        decreases N - index,
    {
        out[index] = data[at + index];
        index += 1;
    }
    assert(out@ =~= data@.subrange(at as int, at + N));
    out
}

/// Write `value` in `N` bytes, most significant first.
pub(crate) fn be_array<const N: usize>(value: u128) -> (out: [u8; N])
    ensures
        out@ == be_bytes(value as nat, N as nat),
{
    let mut out = [0u8; N];
    let mut rest: u128 = value;
    let mut index: usize = N;
    while index > 0
        invariant
            index <= N,
            be_bytes(value as nat, N as nat) == be_bytes(rest as nat, index as nat)
                + out@.subrange(index as int, N as int),
        decreases index,
    {
        index = index - 1;
        out[index] = (rest % 256) as u8;
        rest = rest / 256;
        assert(be_bytes(value as nat, N as nat) =~= be_bytes(rest as nat, index as nat)
            + out@.subrange(index as int, N as int));
    }
    assert(out@.subrange(0, N as int) =~= out@);
    out
}

/// Write `value` in eight bytes, least significant first.
pub(crate) fn le_u64(value: u64) -> (out: [u8; 8])
    ensures
        out@ == le_bytes(value as nat, 8),
{
    let mut out = [0u8; 8];
    let mut rest: u64 = value;
    let mut index: usize = 0;
    while index < 8
        invariant
            index <= 8,
            le_bytes(value as nat, 8) == out@.subrange(0, index as int) + le_bytes(
                rest as nat,
                (8 - index) as nat,
            ),
        decreases 8 - index,
    {
        out[index] = (rest % 256) as u8;
        rest = rest / 256;
        index += 1;
        assert(le_bytes(value as nat, 8) =~= out@.subrange(0, index as int) + le_bytes(
            rest as nat,
            (8 - index) as nat,
        ));
    }
    assert(out@.subrange(0, 8) =~= out@);
    out
}

/// Write `part` over `data` from `at`.
pub(crate) fn store(data: &mut [u8], at: usize, part: &[u8])
    requires
        at + part@.len() <= old(data)@.len(),
    ensures
        final(data)@ == spliced(old(data)@, at as int, part@),
{
    let ghost before = data@;
    let mut index: usize = 0;
    while index < part.len()
        invariant
            index <= part@.len(),
            at + part@.len() <= data.len(),
            data@.len() == before.len(),
            forall|p: int| 0 <= p < data@.len() ==> #[trigger] data@[p] == (if at <= p < at + index {
                part@[p - at]
            } else {
                before[p]
            }),
        decreases part@.len() - index,
    {
        data[at + index] = part[index];
        index += 1;
    }
    assert(data@ =~= spliced(before, at as int, part@));
}

/// Byte `i` of a number written most significant first is the digit of its place in base 256.
pub proof fn law_big_endian_bytes_are_digits(value: nat, len: nat, i: int)
    requires
        0 <= i < len,
    ensures
        be_bytes(value, len).len() == len,
        be_bytes(value, len)[i] == (value as int / pow(256, (len - 1 - i) as nat)) % 256,
    decreases len,
{
    lemma_be_bytes_len(value, len);
    lemma_be_bytes_len(value / 256, (len - 1) as nat);
    if i == len - 1 {
        lemma_pow0(256);
    } else {
        law_big_endian_bytes_are_digits(value / 256, (len - 1) as nat, i);
        let power = pow(256, (len - 2 - i) as nat);
        lemma_pow_positive(256, (len - 2 - i) as nat);
        assert(pow(256, (len - 1 - i) as nat) == 256 * power) by {
            reveal(pow);
        }
        lemma_div_denominator(value as int, 256, power);
    }
}

/// Byte `i` of a number written least significant first is the digit of its place in base 256.
pub proof fn law_little_endian_bytes_are_digits(value: nat, len: nat, i: int)
    requires
        0 <= i < len,
    ensures
        le_bytes(value, len).len() == len,
        le_bytes(value, len)[i] == (value as int / pow(256, i as nat)) % 256,
    decreases len,
{
    lemma_le_bytes_len(value, len);
    lemma_le_bytes_len(value / 256, (len - 1) as nat);
    if i == 0 {
        lemma_pow0(256);
    } else {
        law_little_endian_bytes_are_digits(value / 256, (len - 1) as nat, i - 1);
        let power = pow(256, (i - 1) as nat);
        lemma_pow_positive(256, (i - 1) as nat);
        assert(pow(256, i as nat) == 256 * power) by {
            reveal(pow);
        }
        lemma_div_denominator(value as int, 256, power);
        assert(le_bytes(value, len)[i] == le_bytes(value / 256, (len - 1) as nat)[i - 1]);
    }
}

/// The first byte of a number counts as often as the bytes after it say.
pub proof fn law_the_first_byte_counts_most(first: u8, rest: Seq<u8>)
    ensures
        be_value(seq![]) == 0,
        be_value(seq![first] + rest) == first * pow(256, rest.len()) + be_value(rest),
    decreases rest.len(),
{
    let whole = seq![first] + rest;
    if rest.len() == 0 {
        lemma_pow0(256);
        assert(whole.drop_last() =~= seq![]);
    } else {
        law_the_first_byte_counts_most(first, rest.drop_last());
        assert(whole.drop_last() =~= seq![first] + rest.drop_last());
        let power = pow(256, (rest.len() - 1) as nat);
        assert(pow(256, rest.len()) == 256 * power) by {
            reveal(pow);
        }
        assert((first * power) * 256 == first * (256 * power)) by (nonlinear_arith);
    }
}

/// Reading a number back from its own bytes gives the bytes again.
pub proof fn law_bytes_read_and_written_back_are_the_same(bytes: Seq<u8>)
    ensures
        be_bytes(be_value(bytes), bytes.len()) == bytes,
    decreases bytes.len(),
{
    if bytes.len() > 0 {
        let fewer = bytes.drop_last();
        law_bytes_read_and_written_back_are_the_same(fewer);
        let value = be_value(bytes);
        assert(value == be_value(fewer) * 256 + bytes.last() as nat);
        assert(value / 256 == be_value(fewer) && value % 256 == bytes.last() as nat);
        assert(be_bytes(value, bytes.len()) =~= bytes);
    } else {
        assert(bytes =~= seq![]);
    }
}

/// Writing a part over some data puts the part there, whole, and changes nothing else.
pub proof fn law_only_the_part_written_over_changes(data: Seq<u8>, at: int, part: Seq<u8>)
    requires
        0 <= at,
        at + part.len() <= data.len(),
    ensures
        spliced(data, at, part) == data.subrange(0, at) + part + data.subrange(
            at + part.len(),
            data.len() as int,
        ),
{
    assert(spliced(data, at, part) =~= data.subrange(0, at) + part + data.subrange(
        at + part.len(),
        data.len() as int,
    ));
}

} // verus!
