//! Numbers as runs of bytes, in either byte order.

use crate::configuration::Endianess;
use vstd::prelude::*;

verus! {

/// Number of values that `width` bytes can hold: 256 to the power `width`.
pub open spec fn span(width: nat) -> nat
    decreases width,
{
    if width == 0 {
        1
    } else {
        256 * span((width - 1) as nat)
    }
}

/// The number that a run of bytes stands for when the first byte counts most.
pub open spec fn be_number(bytes: Seq<u8>) -> nat
    decreases bytes.len(),
{
    if bytes.len() == 0 {
        0
    } else {
        be_number(bytes.drop_last()) * 256 + bytes.last() as nat
    }
}

/// The number that a run of bytes stands for when the first byte counts least.
pub open spec fn le_number(bytes: Seq<u8>) -> nat
    decreases bytes.len(),
{
    if bytes.len() == 0 {
        0
    } else {
        bytes.first() as nat + 256 * le_number(bytes.drop_first())
    }
}

/// The number that a run of bytes stands for in the given byte order.
pub open spec fn wire_number(bytes: Seq<u8>, endianess: Endianess) -> nat {
    match endianess {
        Endianess::Big => be_number(bytes),
        Endianess::Little => le_number(bytes),
    }
}

/// The `width` bytes that stand for `n` modulo `span(width)` when the first
/// byte counts most.
pub open spec fn be_bytes(n: nat, width: nat) -> Seq<u8>
    decreases width,
{
    if width == 0 {
        Seq::empty()
    } else {
        be_bytes(n / 256, (width - 1) as nat).push((n % 256) as u8)
    }
}

/// The `width` bytes that stand for `n` modulo `span(width)` when the first
/// byte counts least.
pub open spec fn le_bytes(n: nat, width: nat) -> Seq<u8>
    decreases width,
{
    if width == 0 {
        Seq::empty()
    } else {
        seq![(n % 256) as u8] + le_bytes(n / 256, (width - 1) as nat)
    }
}

/// The `width` bytes that stand for `n` modulo `span(width)` in the given
/// byte order.
pub open spec fn wire_bytes(n: nat, width: nat, endianess: Endianess) -> Seq<u8> {
    match endianess {
        Endianess::Big => be_bytes(n, width),
        Endianess::Little => le_bytes(n, width),
    }
}

/// The spans of the widths that occur in a log.
pub proof fn lemma_span_values()
    ensures
        span(0) == 1,
        span(1) == 0x100,
        span(2) == 0x1_0000,
        span(3) == 0x100_0000,
        span(4) == 0x1_0000_0000,
        span(5) == 0x100_0000_0000,
        span(6) == 0x1_0000_0000_0000,
        span(7) == 0x100_0000_0000_0000,
        span(8) == 0x1_0000_0000_0000_0000,
{
    reveal_with_fuel(span, 9);
}

/// A span is never zero.
pub proof fn lemma_span_positive(width: nat)
    ensures
        span(width) > 0,
    decreases width,
{
    if width > 0 {
        lemma_span_positive((width - 1) as nat);
    }
}

/// A run of bytes stands for a number below the span of its length.
pub proof fn lemma_be_number_bound(bytes: Seq<u8>)
    ensures
        be_number(bytes) < span(bytes.len()),
    decreases bytes.len(),
{
    if bytes.len() > 0 {
        lemma_be_number_bound(bytes.drop_last());
    }
}

/// A run of bytes stands for a number below the span of its length.
pub proof fn lemma_le_number_bound(bytes: Seq<u8>)
    ensures
        le_number(bytes) < span(bytes.len()),
    decreases bytes.len(),
{
    if bytes.len() > 0 {
        lemma_le_number_bound(bytes.drop_first());
    }
}

/// Writing out the number that a run of bytes stands for gives the bytes back.
pub proof fn lemma_be_bytes_of_number(bytes: Seq<u8>)
    ensures
        be_bytes(be_number(bytes), bytes.len()) == bytes,
    decreases bytes.len(),
{
    if bytes.len() > 0 {
        let front = bytes.drop_last();
        lemma_be_bytes_of_number(front);
        let n = be_number(bytes);
        assert(n / 256 == be_number(front));
        assert(n % 256 == bytes.last() as nat);
        assert(front.push(bytes.last()) =~= bytes);
    } else {
        assert(be_bytes(be_number(bytes), bytes.len()) =~= bytes);
    }
}

/// Writing out the number that a run of bytes stands for gives the bytes back.
pub proof fn lemma_le_bytes_of_number(bytes: Seq<u8>)
    ensures
        le_bytes(le_number(bytes), bytes.len()) == bytes,
    decreases bytes.len(),
{
    if bytes.len() > 0 {
        let rest = bytes.drop_first();
        lemma_le_bytes_of_number(rest);
        let n = le_number(bytes);
        assert(n / 256 == le_number(rest));
        assert(n % 256 == bytes.first() as nat);
        assert(seq![bytes.first()] + rest =~= bytes);
    } else {
        assert(le_bytes(le_number(bytes), bytes.len()) =~= bytes);
    }
}

/// Reading back the bytes written for a number gives the number modulo the
/// span of the width.
pub proof fn lemma_be_number_of_bytes(n: nat, width: nat)
    ensures
        be_bytes(n, width).len() == width,
        be_number(be_bytes(n, width)) == n % span(width),
    decreases width,
{
    if width > 0 {
        let shorter = (width - 1) as nat;
        lemma_be_number_of_bytes(n / 256, shorter);
        let bytes = be_bytes(n, width);
        assert(bytes.drop_last() =~= be_bytes(n / 256, shorter));
        lemma_span_positive(shorter);
        lemma_split_remainder(n, span(shorter));
    }
}

/// Reading back the bytes written for a number gives the number modulo the
/// span of the width.
pub proof fn lemma_le_number_of_bytes(n: nat, width: nat)
    ensures
        le_bytes(n, width).len() == width,
        le_number(le_bytes(n, width)) == n % span(width),
    decreases width,
{
    if width > 0 {
        let shorter = (width - 1) as nat;
        lemma_le_number_of_bytes(n / 256, shorter);
        let bytes = le_bytes(n, width);
        assert(bytes.drop_first() =~= le_bytes(n / 256, shorter));
        lemma_span_positive(shorter);
        lemma_split_remainder(n, span(shorter));
    }
}

/// The remainder by `256 * m` is built from the remainder by 256 and the
/// remainder of the quotient by `m`.
pub proof fn lemma_split_remainder(n: nat, m: nat)
    requires
        m > 0,
    ensures
        n % (256 * m) == (n / 256 % m) * 256 + n % 256,
{
    let q = n / 256;
    let r = n % 256;
    let big = 256 * m;
    assert(n == 256 * q + r);
    let qq = q / m;
    let qr = q % m;
    assert(q == m * qq + qr) by {
        vstd::arithmetic::div_mod::lemma_fundamental_div_mod(q as int, m as int);
    }
    assert(n == big * qq + (qr * 256 + r)) by (nonlinear_arith)
        requires
            n == 256 * q + r,
            q == m * qq + qr,
            big == 256 * m,
    ;
    assert(0 <= qr * 256 + r < big) by (nonlinear_arith)
        requires
            0 <= qr < m,
            0 <= r < 256,
            big == 256 * m,
    ;
    vstd::arithmetic::div_mod::lemma_fundamental_div_mod_converse(
        n as int,
        big as int,
        qq as int,
        (qr * 256 + r) as int,
    );
}

/// Reads the number that the `width` bytes from `start` on stand for.
pub fn read_number(data: &[u8], start: usize, width: usize, endianess: Endianess) -> (n: u64)
    requires
        width <= 8,
        start + width <= data.len(),
    ensures
        n == wire_number(data@.subrange(start as int, start + width), endianess),
{
    let mut n: u64 = 0;
    let mut done: usize = 0;
    proof {
        lemma_span_values();
    }
    match endianess {
        Endianess::Big => {
            while done < width
                invariant
                    width <= 8,
                    start + width <= data.len(),
                    done <= width,
                    n == be_number(data@.subrange(start as int, start + done)),
                    n < span(done as nat),
                decreases width - done,
            {
                let byte: u8 = data[start + done];
                proof {
                    let longer = data@.subrange(start as int, start + done + 1);
                    assert(longer.drop_last() =~= data@.subrange(start as int, start + done));
                    assert(longer.last() == byte);
                    lemma_span_values();
                    assert(n * 256 + byte < span((done + 1) as nat));
                    assert(span((done + 1) as nat) <= span(8)) by {
                        lemma_span_monotonic((done + 1) as nat, 8);
                    }
                }
                n = n * 256 + byte as u64;
                done += 1;
            }
        },
        Endianess::Little => {
            while done < width
                invariant
                    width <= 8,
                    start + width <= data.len(),
                    done <= width,
                    n == le_number(data@.subrange(start + width - done, start + width)),
                    n < span(done as nat),
                decreases width - done,
            {
                let byte: u8 = data[start + width - done - 1];
                proof {
                    let longer = data@.subrange(start + width - done - 1, start + width);
                    assert(longer.drop_first() =~= data@.subrange(
                        start + width - done,
                        start + width,
                    ));
                    assert(longer.first() == byte);
                    lemma_span_values();
                    assert(byte + 256 * n < span((done + 1) as nat));
                    assert(span((done + 1) as nat) <= span(8)) by {
                        lemma_span_monotonic((done + 1) as nat, 8);
                    }
                }
                n = n * 256 + byte as u64;
                done += 1;
            }
        },
    }
    n
}

/// Appends to `out` the `width` bytes that stand for `n` modulo
/// `span(width)`, the byte that counts most first.
pub fn write_be_number(out: &mut Vec<u8>, n: u64, width: usize)
    ensures
        final(out)@ == old(out)@ + be_bytes(n as nat, width as nat),
    decreases width,
{
    if width > 0 {
        write_be_number(out, n / 256, width - 1);
        let byte: u8 = (n % 256) as u8;
        out.push(byte);
        assert(out@ =~= old(out)@ + be_bytes(n as nat, width as nat));
    } else {
        assert(out@ =~= old(out)@ + be_bytes(n as nat, width as nat));
    }
}

/// Appends to `out` the `width` bytes that stand for `n` modulo
/// `span(width)`, the byte that counts least first.
pub fn write_le_number(out: &mut Vec<u8>, n: u64, width: usize)
    ensures
        final(out)@ == old(out)@ + le_bytes(n as nat, width as nat),
    decreases width,
{
    if width > 0 {
        let byte: u8 = (n % 256) as u8;
        out.push(byte);
        write_le_number(out, n / 256, width - 1);
        assert(out@ =~= old(out)@ + le_bytes(n as nat, width as nat));
    } else {
        assert(out@ =~= old(out)@ + le_bytes(n as nat, width as nat));
    }
}

/// Appends to `out` the `width` bytes that stand for `n` modulo
/// `span(width)` in the given byte order.
pub fn write_number(out: &mut Vec<u8>, n: u64, width: usize, endianess: Endianess)
    ensures
        final(out)@ == old(out)@ + wire_bytes(n as nat, width as nat, endianess),
{
    match endianess {
        Endianess::Big => write_be_number(out, n, width),
        Endianess::Little => write_le_number(out, n, width),
    }
}

/// A longer run of bytes has the larger span.
pub proof fn lemma_span_monotonic(shorter: nat, longer: nat)
    requires
        shorter <= longer,
    ensures
        span(shorter) <= span(longer),
    decreases longer,
{
    if shorter < longer {
        lemma_span_monotonic(shorter, (longer - 1) as nat);
    }
}

} // verus!
