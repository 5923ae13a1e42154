//! Variable-length integers of the record encoding.
//!
//! An unsigned integer is written in the shortest of four forms: one byte for
//! values below `0xfd`; the marker `0xfd`, `0xfe` or `0xff` followed by the
//! value in 2, 4 or 8 big-endian bytes otherwise. A reader accepts only the
//! shortest form, so every value has exactly one encoding.

use vstd::prelude::*;

verus! {

/// The `width` low-order bytes of `v`, most significant first.
pub open spec fn spec_be_bytes(v: nat, width: nat) -> Seq<u8>
    decreases width,
{
    if width == 0 {
        Seq::empty()
    } else {
        spec_be_bytes(v / 256, (width - 1) as nat).push((v % 256) as u8)
    }
}

/// The number that `s` holds, most significant byte first.
pub open spec fn spec_be_value(s: Seq<u8>) -> nat
    decreases s.len(),
{
    if s.len() == 0 {
        0
    } else {
        spec_be_value(s.drop_last()) * 256 + s.last() as nat
    }
}

/// Whether `v` can be written in `width` bytes.
pub open spec fn spec_fits(v: nat, width: nat) -> bool
    decreases width,
{
    if width == 0 {
        v == 0
    } else {
        spec_fits(v / 256, (width - 1) as nat)
    }
}

/// The encoding of `v`.
pub open spec fn spec_varint(v: u64) -> Seq<u8> {
    if v < 0xfd {
        seq![v as u8]
    } else if v <= 0xffff {
        seq![0xfdu8] + spec_be_bytes(v as nat, 2)
    } else if v <= 0xffff_ffff {
        seq![0xfeu8] + spec_be_bytes(v as nat, 4)
    } else {
        seq![0xffu8] + spec_be_bytes(v as nat, 8)
    }
}

/// Number of bytes that follow the first byte `marker` of an encoding.
pub open spec fn spec_payload_width(marker: u8) -> nat {
    if marker < 0xfd {
        0
    } else if marker == 0xfd {
        2
    } else if marker == 0xfe {
        4
    } else {
        8
    }
}

/// Smallest value that may follow the first byte `marker`.
pub open spec fn spec_least_value(marker: u8) -> nat {
    if marker < 0xfd {
        0
    } else if marker == 0xfd {
        0xfd
    } else if marker == 0xfe {
        0x1_0000
    } else {
        0x1_0000_0000
    }
}

/// The value at the front of `s` and the number of bytes it takes, or `None`
/// where `s` does not begin with the encoding of any value.
pub open spec fn spec_read_varint(s: Seq<u8>) -> Option<(u64, nat)> {
    if s.len() == 0 {
        None
    } else if s[0] < 0xfd {
        Some((s[0] as u64, 1))
    } else {
        let width = spec_payload_width(s[0]);
        if s.len() < 1 + width {
            None
        } else {
            let x = spec_be_value(s.subrange(1, 1 + width as int));
            if x < spec_least_value(s[0]) {
                None
            } else {
                Some((x as u64, 1 + width))
            }
        }
    }
}

/// What is left of `s` from position `pos` on.
pub open spec fn spec_rest(s: Seq<u8>, pos: nat) -> Seq<u8> {
    if pos <= s.len() {
        s.skip(pos as int)
    } else {
        Seq::empty()
    }
}

/// A number written in `width` bytes takes `width` bytes.
pub proof fn lemma_be_bytes_len(v: nat, width: nat)
    ensures
        spec_be_bytes(v, width).len() == width,
    decreases width,
{
    if width > 0 {
        lemma_be_bytes_len(v / 256, (width - 1) as nat);
    }
}

/// Reading back what was written gives the number that was written.
pub proof fn lemma_be_value_of_bytes(v: nat, width: nat)
    requires
        spec_fits(v, width),
    ensures
        spec_be_value(spec_be_bytes(v, width)) == v,
    decreases width,
{
    if width > 0 {
        let t = spec_be_bytes(v / 256, (width - 1) as nat);
        let s = spec_be_bytes(v, width);
        lemma_be_value_of_bytes(v / 256, (width - 1) as nat);
        assert(s.drop_last() =~= t);
        assert(s.last() == (v % 256) as u8);
    }
}

/// Writing the number that `s` holds gives `s` again.
pub proof fn lemma_be_bytes_of_value(s: Seq<u8>)
    ensures
        spec_fits(spec_be_value(s), s.len()),
        spec_be_bytes(spec_be_value(s), s.len()) == s,
    decreases s.len(),
{
    if s.len() > 0 {
        lemma_be_bytes_of_value(s.drop_last());
        let y = spec_be_value(s.drop_last());
        let x = spec_be_value(s);
        assert(x == y * 256 + s.last() as nat);
        assert(x / 256 == y);
        assert(x % 256 == s.last() as nat);
        assert(s.drop_last().push(s.last()) =~= s);
    }
}

/// The numbers that fit in 2, 4 and 8 bytes.
pub proof fn lemma_fits_ranges(v: nat)
    ensures
        spec_fits(v, 2) <==> v <= 0xffff,
        spec_fits(v, 4) <==> v <= 0xffff_ffff,
        spec_fits(v, 8) <==> v <= 0xffff_ffff_ffff_ffff,
{
    reveal_with_fuel(spec_fits, 9);
}

proof fn lemma_fits_below_top_byte(v: nat, width: nat)
    requires
        spec_fits(v, width),
        width <= 7,
    ensures
        v < 0x100_0000_0000_0000,
{
    reveal_with_fuel(spec_fits, 8);
}

/// Every encoding is read back as the value it was made from, whatever
/// follows it.
pub proof fn lemma_read_of_written(v: u64, rest: Seq<u8>)
    ensures
        spec_read_varint(spec_varint(v) + rest) == Some((v, spec_varint(v).len())),
{
    let e = spec_varint(v);
    let s = e + rest;
    if v < 0xfd {
        assert(s[0] == v as u8);
    } else {
        let width: nat = if v <= 0xffff {
            2
        } else if v <= 0xffff_ffff {
            4
        } else {
            8
        };
        let body = spec_be_bytes(v as nat, width);
        lemma_be_bytes_len(v as nat, width);
        lemma_fits_ranges(v as nat);
        lemma_be_value_of_bytes(v as nat, width);
        assert(s[0] == e[0]);
        assert(s.subrange(1, 1 + width as int) =~= body);
    }
}

/// What is read is the one encoding of the value read: the bytes taken are
/// exactly `spec_varint` of it.
pub proof fn lemma_written_of_read(s: Seq<u8>)
    ensures
        match spec_read_varint(s) {
            Some((v, n)) => n <= s.len() && s.subrange(0, n as int) == spec_varint(v),
            None => true,
        },
{
    if s.len() > 0 && s[0] >= 0xfd {
        let width = spec_payload_width(s[0]);
        if s.len() >= 1 + width {
            let body = s.subrange(1, 1 + width as int);
            let x = spec_be_value(body);
            lemma_be_bytes_of_value(body);
            lemma_fits_ranges(x);
            if x >= spec_least_value(s[0]) {
                assert(s.subrange(0, 1 + width as int) =~= seq![s[0]] + body);
            }
        }
    } else if s.len() > 0 {
        assert(s.subrange(0, 1) =~= seq![s[0]]);
    }
}

/// No sequence of bytes is the front of two encodings: where `s` is not read
/// as a value, it begins with the encoding of none.
pub proof fn lemma_unreadable_is_no_encoding(s: Seq<u8>, v: u64)
    requires
        spec_read_varint(s) is None,
    ensures
        !spec_varint(v).is_prefix_of(s),
{
    let e = spec_varint(v);
    if e.is_prefix_of(s) {
        let rest = s.skip(e.len() as int);
        assert(s =~= e + rest);
        lemma_read_of_written(v, rest);
    }
}

fn push_be(v: u64, width: usize, out: &mut Vec<u8>)
    ensures
        final(out)@ == old(out)@ + spec_be_bytes(v as nat, width as nat),
    decreases width,
{
    if width > 0 {
        push_be(v / 256, width - 1, out);
        out.push((v % 256) as u8);
        assert(out@ =~= old(out)@ + spec_be_bytes(v as nat, width as nat));
    } else {
        assert(out@ =~= old(out)@ + spec_be_bytes(v as nat, width as nat));
    }
}

fn read_be(data: &[u8], start: usize, width: usize) -> (v: u64)
    requires
        start + width <= data@.len(),
        width <= 8,
    ensures
        v == spec_be_value(data@.subrange(start as int, start + width)),
{
    let len: usize = data.len();
    let mut acc: u64 = 0;
    let mut i: usize = 0;
    while i < width
        invariant
            i <= width <= 8,
            start + width <= data@.len(),
            len == data@.len(),
            acc == spec_be_value(data@.subrange(start as int, start + i)),
        decreases width - i,
    {
        let ghost before = data@.subrange(start as int, start + i);
        let ghost after = data@.subrange(start as int, start + i + 1);
        proof {
            lemma_be_bytes_of_value(before);
            lemma_fits_below_top_byte(acc as nat, i as nat);
            assert(after.drop_last() =~= before);
            assert(after.last() == data@[start + i]);
        }
        acc = acc * 256 + data[start + i] as u64;
        i += 1;
    }
    acc
}

/// Appends the encoding of `v` to `out`.
pub fn write_varint(v: u64, out: &mut Vec<u8>)
    ensures
        final(out)@ == old(out)@ + spec_varint(v),
{
    if v < 0xfd {
        out.push(v as u8);
        assert(out@ =~= old(out)@ + spec_varint(v));
    } else {
        let ghost start = out@;
        let (marker, width): (u8, usize) = if v <= 0xffff {
            (0xfd, 2)
        } else if v <= 0xffff_ffff {
            (0xfe, 4)
        } else {
            (0xff, 8)
        };
        out.push(marker);
        push_be(v, width, out);
        assert(out@ =~= start + spec_varint(v));
    }
}

/// Reads the value that is encoded at `pos`. Returns it with the position
/// behind it, or `None` where the bytes from `pos` on begin with no encoding.
pub fn read_varint(data: &[u8], pos: usize) -> (r: Option<(u64, usize)>)
    ensures
        match r {
            Some((v, next)) => pos < next <= data@.len() && spec_read_varint(
                spec_rest(data@, pos as nat),
            ) == Some((v, (next - pos) as nat)),
            None => spec_read_varint(spec_rest(data@, pos as nat)) is None,
        },
{
    if pos >= data.len() {
        return None;
    }
    let ghost rest = spec_rest(data@, pos as nat);
    let marker: u8 = data[pos];
    assert(rest[0] == marker);
    if marker < 0xfd {
        return Some((marker as u64, pos + 1));
    }
    let (width, least): (usize, u64) = if marker == 0xfd {
        (2, 0xfd)
    } else if marker == 0xfe {
        (4, 0x1_0000)
    } else {
        (8, 0x1_0000_0000)
    };
    if data.len() - pos < 1 + width {
        return None;
    }
    let x: u64 = read_be(data, pos + 1, width);
    assert(rest.subrange(1, 1 + width as int) =~= data@.subrange(pos + 1, pos + 1 + width));
    if x < least {
        None
    } else {
        Some((x, pos + 1 + width))
    }
}

} // verus!
