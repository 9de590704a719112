//! Fixed-width little-endian integers, as the wire format and the file
//! header carry them.

use vstd::prelude::*;

verus! {

/// The `width` little-endian bytes of `value`: the lowest byte comes first.
/// Bits of `value` above the width are dropped.
pub open spec fn le_bytes(value: nat, width: nat) -> Seq<u8>
    decreases width,
{
    if width == 0 {
        Seq::empty()
    } else {
        seq![(value % 256) as u8] + le_bytes(value / 256, (width - 1) as nat)
    }
}

/// The number that a little-endian byte string stands for.
pub open spec fn le_value(bytes: Seq<u8>) -> nat
    decreases bytes.len(),
{
    if bytes.len() == 0 {
        0
    } else {
        bytes[0] as nat + 256 * le_value(bytes.drop_first())
    }
}

/// 256 to the power `width`: the number of values that `width` bytes hold.
pub open spec fn capacity(width: nat) -> nat
    decreases width,
{
    if width == 0 {
        1
    } else {
        256 * capacity((width - 1) as nat)
    }
}

/// An encoding has exactly the width asked for.
pub proof fn lemma_le_bytes_len(value: nat, width: nat)
    ensures
        le_bytes(value, width).len() == width,
    decreases width,
{
    if width > 0 {
        lemma_le_bytes_len(value / 256, (width - 1) as nat);
    }
}

/// A byte string stands for a number below the capacity of its length.
pub proof fn lemma_le_value_bound(bytes: Seq<u8>)
    ensures
        le_value(bytes) < capacity(bytes.len()),
    decreases bytes.len(),
{
    if bytes.len() > 0 {
        lemma_le_value_bound(bytes.drop_first());
    }
}

/// Decoding undoes encoding for every value that fits the width.
pub proof fn lemma_le_round_trip(value: nat, width: nat)
    requires
        value < capacity(width),
    ensures
        le_value(le_bytes(value, width)) == value,
    decreases width,
{
    if width > 0 {
        let rest = le_bytes(value / 256, (width - 1) as nat);
        lemma_le_round_trip(value / 256, (width - 1) as nat);
        assert(le_bytes(value, width).drop_first() =~= rest);
        assert(le_bytes(value, width)[0] == (value % 256) as u8);
    }
}

/// Eight bytes hold every `u64`, two bytes every `u16`.
pub proof fn lemma_capacities()
    ensures
        capacity(2) == 0x1_0000,
        capacity(8) == 0x1_0000_0000_0000_0000,
{
    reveal_with_fuel(capacity, 9);
}

/// Appends the `width` little-endian bytes of `value` to `out`.
pub fn push_le(out: &mut Vec<u8>, value: u64, width: usize)
    ensures
        final(out)@ == old(out)@ + le_bytes(value as nat, width as nat),
{
    let mut rest: u64 = value;
    let mut done: usize = 0;
    while done < width
        invariant
            done <= width,
            out@ + le_bytes(rest as nat, (width - done) as nat) == old(out)@ + le_bytes(
                value as nat,
                width as nat,
            ),
        decreases width - done,
    {
        let ghost before = out@;
        let low: u8 = (rest % 256) as u8;
        out.push(low);
        proof {
            let tail = le_bytes((rest / 256) as nat, (width - done - 1) as nat);
            assert(le_bytes(rest as nat, (width - done) as nat) =~= seq![low] + tail);
            assert(before + (seq![low] + tail) =~= before.push(low) + tail);
        }
        rest = rest / 256;
        done = done + 1;
    }
    proof {
        assert(le_bytes(rest as nat, 0) =~= Seq::<u8>::empty());
        assert(out@ + Seq::<u8>::empty() =~= out@);
    }
}

/// Reads the little-endian number in the `width` bytes of `src` that start
/// at `at`. `None` where `src` does not hold that many bytes from there,
/// or the width is more than the eight bytes of a `u64`.
pub fn read_le(src: &[u8], at: usize, width: usize) -> (value: Option<u64>)
    ensures
        match value {
            Some(number) => {
                &&& width <= 8
                &&& at + width <= src@.len()
                &&& number as nat == le_value(src@.subrange(at as int, at + width))
            },
            None => width > 8 || at + width > src@.len(),
        },
{
    if width > 8 || at > src.len() || src.len() - at < width {
        return None;
    }
    let mut acc: u64 = 0;
    let mut left: usize = width;
    proof {
        assert(src@.subrange(at + width, at + width) =~= Seq::<u8>::empty());
    }
    while left > 0
        invariant
            left <= width <= 8,
            at + width <= src.len(),
            acc as nat == le_value(src@.subrange(at + left, at + width)),
        decreases left,
    {
        let ghost tail = src@.subrange(at + left, at + width);
        let ghost whole = src@.subrange(at + left - 1, at + width);
        proof {
            lemma_capacities();
            lemma_le_value_bound(tail);
            lemma_le_value_bound(whole);
            lemma_capacity_monotone(whole.len(), 8);
            assert(whole.drop_first() =~= tail);
            assert(whole[0] == src@[at + left - 1]);
            assert(le_value(whole) == whole[0] as nat + 256 * le_value(tail));
        }
        left = left - 1;
        acc = acc * 256 + src[at + left] as u64;
    }
    Some(acc)
}

/// A wider field holds at least as many values.
pub proof fn lemma_capacity_monotone(narrow: nat, wide: nat)
    requires
        narrow <= wide,
    ensures
        capacity(narrow) <= capacity(wide),
    decreases wide,
{
    if narrow < wide {
        lemma_capacity_monotone(narrow, (wide - 1) as nat);
    }
}

} // verus!
