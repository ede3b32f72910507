//! Primitive byte-level codec: big-endian fixed-width integers,
//! null-terminated strings, and alignment to a power-of-two boundary.
//!
//! Every multi-byte integer of the bundle format is big-endian. The one
//! little-endian encoding (`u64_le_bytes`) exists for the synthesized
//! uncompressed-size field of an LZMA stream header.

use vstd::prelude::*;

verus! {

// ---------------------------------------------------------------------------
// Specification encodings
// ---------------------------------------------------------------------------

/// Big-endian two-byte encoding of `v`.
pub open spec fn u16_be_bytes(v: u16) -> Seq<u8> {
    seq![(v >> 8) as u8, v as u8]
}

/// Big-endian four-byte encoding of `v`.
pub open spec fn u32_be_bytes(v: u32) -> Seq<u8> {
    seq![(v >> 24) as u8, (v >> 16) as u8, (v >> 8) as u8, v as u8]
}

/// Big-endian eight-byte encoding of `v`.
pub open spec fn u64_be_bytes(v: u64) -> Seq<u8> {
    seq![
        (v >> 56) as u8,
        (v >> 48) as u8,
        (v >> 40) as u8,
        (v >> 32) as u8,
        (v >> 24) as u8,
        (v >> 16) as u8,
        (v >> 8) as u8,
        v as u8,
    ]
}

/// Little-endian eight-byte encoding of `v`.
pub open spec fn u64_le_bytes(v: u64) -> Seq<u8> {
    seq![
        v as u8,
        (v >> 8) as u8,
        (v >> 16) as u8,
        (v >> 24) as u8,
        (v >> 32) as u8,
        (v >> 40) as u8,
        (v >> 48) as u8,
        (v >> 56) as u8,
    ]
}

/// The big-endian `u16` whose encoding starts at `pos` in `b`.
pub open spec fn u16_at(b: Seq<u8>, pos: int) -> u16 {
    ((b[pos] as u16) << 8) | (b[pos + 1] as u16)
}

/// The big-endian `u32` whose encoding starts at `pos` in `b`.
pub open spec fn u32_at(b: Seq<u8>, pos: int) -> u32 {
    ((b[pos] as u32) << 24) | ((b[pos + 1] as u32) << 16) | ((b[pos + 2] as u32) << 8)
        | (b[pos + 3] as u32)
}

/// The big-endian `u64` whose encoding starts at `pos` in `b`.
pub open spec fn u64_at(b: Seq<u8>, pos: int) -> u64 {
    ((b[pos] as u64) << 56) | ((b[pos + 1] as u64) << 48) | ((b[pos + 2] as u64) << 40)
        | ((b[pos + 3] as u64) << 32) | ((b[pos + 4] as u64) << 24) | ((b[pos + 5] as u64) << 16)
        | ((b[pos + 6] as u64) << 8) | (b[pos + 7] as u64)
}

/// `n` zero bytes.
pub open spec fn zero_bytes(n: int) -> Seq<u8> {
    Seq::new(n as nat, |i: int| 0u8)
}

/// Index of the first zero byte at or after `pos`, or `b.len()` if none.
pub open spec fn find_null(b: Seq<u8>, pos: int) -> int
    decreases b.len() - pos when 0 <= pos <= b.len()
{
    if pos < 0 || pos >= b.len() {
        b.len() as int
    } else if b[pos] == 0 {
        pos
    } else {
        find_null(b, pos + 1)
    }
}

/// True when no byte of `s` is zero.
pub open spec fn zero_free(s: Seq<u8>) -> bool {
    forall|i: int| 0 <= i < s.len() ==> s[i] != 0
}

/// Zero bytes needed to advance `pos` to a multiple of `alignment`.
pub open spec fn spec_padding(pos: int, alignment: int) -> int {
    let rem = pos % alignment;
    if rem == 0 {
        0
    } else {
        alignment - rem
    }
}

// ---------------------------------------------------------------------------
// Lemmas
// ---------------------------------------------------------------------------

/// Reading a big-endian `u16` back from its encoding yields the value.
pub proof fn lemma_u16_be_read(b: Seq<u8>, pos: int, v: u16)
    requires
        0 <= pos,
        pos + 2 <= b.len(),
        b.subrange(pos, pos + 2) == u16_be_bytes(v),
    ensures
        u16_at(b, pos) == v,
{
    assert(b[pos] == u16_be_bytes(v)[0]);
    assert(b[pos + 1] == u16_be_bytes(v)[1]);
    assert((((v >> 8) as u8 as u16) << 8) | (v as u8 as u16) == v) by (bit_vector);
}

/// Re-encoding the `u16` read at `pos` reproduces the two bytes there.
pub proof fn lemma_u16_be_write(b: Seq<u8>, pos: int)
    requires
        0 <= pos,
        pos + 2 <= b.len(),
    ensures
        u16_be_bytes(u16_at(b, pos)) == b.subrange(pos, pos + 2),
{
    let b0 = b[pos];
    let b1 = b[pos + 1];
    let v = u16_at(b, pos);
    assert((((b0 as u16) << 8 | (b1 as u16)) >> 8) as u8 == b0 && ((b0 as u16) << 8 | (
    b1 as u16)) as u8 == b1) by (bit_vector);
    assert(u16_be_bytes(v) =~= b.subrange(pos, pos + 2));
}

/// Reading a big-endian `u32` back from its encoding yields the value.
pub proof fn lemma_u32_be_read(b: Seq<u8>, pos: int, v: u32)
    requires
        0 <= pos,
        pos + 4 <= b.len(),
        b.subrange(pos, pos + 4) == u32_be_bytes(v),
    ensures
        u32_at(b, pos) == v,
{
    assert(b[pos] == u32_be_bytes(v)[0]);
    assert(b[pos + 1] == u32_be_bytes(v)[1]);
    assert(b[pos + 2] == u32_be_bytes(v)[2]);
    assert(b[pos + 3] == u32_be_bytes(v)[3]);
    assert((((v >> 24) as u8 as u32) << 24) | (((v >> 16) as u8 as u32) << 16) | (((v
        >> 8) as u8 as u32) << 8) | (v as u8 as u32) == v) by (bit_vector);
}

/// Re-encoding the `u32` read at `pos` reproduces the four bytes there.
pub proof fn lemma_u32_be_write(b: Seq<u8>, pos: int)
    requires
        0 <= pos,
        pos + 4 <= b.len(),
    ensures
        u32_be_bytes(u32_at(b, pos)) == b.subrange(pos, pos + 4),
{
    let b0 = b[pos];
    let b1 = b[pos + 1];
    let b2 = b[pos + 2];
    let b3 = b[pos + 3];
    let v = u32_at(b, pos);
    assert({
        let w = (b0 as u32) << 24 | (b1 as u32) << 16 | (b2 as u32) << 8 | (b3 as u32);
        (w >> 24) as u8 == b0 && (w >> 16) as u8 == b1 && (w >> 8) as u8 == b2 && w as u8 == b3
    }) by (bit_vector);
    assert(u32_be_bytes(v) =~= b.subrange(pos, pos + 4));
}

/// Reading a big-endian `u64` back from its encoding yields the value.
pub proof fn lemma_u64_be_read(b: Seq<u8>, pos: int, v: u64)
    requires
        0 <= pos,
        pos + 8 <= b.len(),
        b.subrange(pos, pos + 8) == u64_be_bytes(v),
    ensures
        u64_at(b, pos) == v,
{
    assert forall|i: int| 0 <= i < 8 implies b[pos + i] == u64_be_bytes(v)[i] by {
        assert(b.subrange(pos, pos + 8)[i] == b[pos + i]);
    }
    assert(b[pos] == (v >> 56) as u8);
    assert(b[pos + 1] == (v >> 48) as u8);
    assert(b[pos + 2] == (v >> 40) as u8);
    assert(b[pos + 3] == (v >> 32) as u8);
    assert(b[pos + 4] == (v >> 24) as u8);
    assert(b[pos + 5] == (v >> 16) as u8);
    assert(b[pos + 6] == (v >> 8) as u8);
    assert(b[pos + 7] == v as u8);
    assert((((v >> 56) as u8 as u64) << 56) | (((v >> 48) as u8 as u64) << 48) | (((v
        >> 40) as u8 as u64) << 40) | (((v >> 32) as u8 as u64) << 32) | (((v
        >> 24) as u8 as u64) << 24) | (((v >> 16) as u8 as u64) << 16) | (((v
        >> 8) as u8 as u64) << 8) | (v as u8 as u64) == v) by (bit_vector);
}

/// Re-encoding the `u64` read at `pos` reproduces the eight bytes there.
pub proof fn lemma_u64_be_write(b: Seq<u8>, pos: int)
    requires
        0 <= pos,
        pos + 8 <= b.len(),
    ensures
        u64_be_bytes(u64_at(b, pos)) == b.subrange(pos, pos + 8),
{
    let b0 = b[pos];
    let b1 = b[pos + 1];
    let b2 = b[pos + 2];
    let b3 = b[pos + 3];
    let b4 = b[pos + 4];
    let b5 = b[pos + 5];
    let b6 = b[pos + 6];
    let b7 = b[pos + 7];
    let v = u64_at(b, pos);
    assert({
        let w = (b0 as u64) << 56 | (b1 as u64) << 48 | (b2 as u64) << 40 | (b3 as u64) << 32 | (
        b4 as u64) << 24 | (b5 as u64) << 16 | (b6 as u64) << 8 | (b7 as u64);
        (w >> 56) as u8 == b0 && (w >> 48) as u8 == b1 && (w >> 40) as u8 == b2 && (w
            >> 32) as u8 == b3 && (w >> 24) as u8 == b4 && (w >> 16) as u8 == b5 && (w
            >> 8) as u8 == b6 && w as u8 == b7
    }) by (bit_vector);
    assert(u64_be_bytes(v) =~= b.subrange(pos, pos + 8));
}

/// `find_null` lands on the zero byte that closes a zero-free run.
pub proof fn lemma_find_null_is(b: Seq<u8>, pos: int, k: int)
    requires
        0 <= pos <= k < b.len(),
        b[k] == 0,
        forall|i: int| pos <= i < k ==> b[i] != 0,
    ensures
        find_null(b, pos) == k,
    decreases k - pos,
{
    if pos < k {
        lemma_find_null_is(b, pos + 1, k);
    }
}

/// Range facts about `find_null`: where it lies and what it passed over.
pub proof fn lemma_find_null_bounds(b: Seq<u8>, pos: int)
    requires
        0 <= pos <= b.len(),
    ensures
        pos <= find_null(b, pos) <= b.len(),
        forall|i: int| pos <= i < find_null(b, pos) ==> b[i] != 0,
        find_null(b, pos) < b.len() ==> b[find_null(b, pos)] == 0,
    decreases b.len() - pos,
{
    if pos < b.len() && b[pos] != 0 {
        lemma_find_null_bounds(b, pos + 1);
    }
}

// ---------------------------------------------------------------------------
// Executable readers
// ---------------------------------------------------------------------------

/// Read a big-endian `u16` at `*pos`, advancing the cursor.
pub fn read_u16_be(bytes: &Vec<u8>, pos: &mut usize) -> (r: Option<u16>)
    ensures
        match r {
            Some(v) => *old(pos) + 2 <= bytes@.len() && *final(pos) == *old(pos) + 2 && v == u16_at(
                bytes@,
                *old(pos) as int,
            ),
            None => *old(pos) + 2 > bytes@.len() && *final(pos) == *old(pos),
        },
{
    if bytes.len() < 2 || *pos > bytes.len() - 2 {
        return None;
    }
    let b0 = bytes[*pos];
    let b1 = bytes[*pos + 1];
    *pos = *pos + 2;
    Some(((b0 as u16) << 8) | (b1 as u16))
}

/// Read a big-endian `u32` at `*pos`, advancing the cursor.
pub fn read_u32_be(bytes: &Vec<u8>, pos: &mut usize) -> (r: Option<u32>)
    ensures
        match r {
            Some(v) => *old(pos) + 4 <= bytes@.len() && *final(pos) == *old(pos) + 4 && v == u32_at(
                bytes@,
                *old(pos) as int,
            ),
            None => *old(pos) + 4 > bytes@.len() && *final(pos) == *old(pos),
        },
{
    if bytes.len() < 4 || *pos > bytes.len() - 4 {
        return None;
    }
    let b0 = bytes[*pos];
    let b1 = bytes[*pos + 1];
    let b2 = bytes[*pos + 2];
    let b3 = bytes[*pos + 3];
    *pos = *pos + 4;
    Some(((b0 as u32) << 24) | ((b1 as u32) << 16) | ((b2 as u32) << 8) | (b3 as u32))
}

/// Read a big-endian `u64` at `*pos`, advancing the cursor.
pub fn read_u64_be(bytes: &Vec<u8>, pos: &mut usize) -> (r: Option<u64>)
    ensures
        match r {
            Some(v) => *old(pos) + 8 <= bytes@.len() && *final(pos) == *old(pos) + 8 && v == u64_at(
                bytes@,
                *old(pos) as int,
            ),
            None => *old(pos) + 8 > bytes@.len() && *final(pos) == *old(pos),
        },
{
    if bytes.len() < 8 || *pos > bytes.len() - 8 {
        return None;
    }
    let b0 = bytes[*pos];
    let b1 = bytes[*pos + 1];
    let b2 = bytes[*pos + 2];
    let b3 = bytes[*pos + 3];
    let b4 = bytes[*pos + 4];
    let b5 = bytes[*pos + 5];
    let b6 = bytes[*pos + 6];
    let b7 = bytes[*pos + 7];
    *pos = *pos + 8;
    Some(
        ((b0 as u64) << 56) | ((b1 as u64) << 48) | ((b2 as u64) << 40) | ((b3 as u64) << 32) | ((
        b4 as u64) << 24) | ((b5 as u64) << 16) | ((b6 as u64) << 8) | (b7 as u64),
    )
}

/// Read bytes up to, but excluding, the first zero byte, advancing the
/// cursor past the terminator. Fails when no terminator exists.
pub fn read_string_to_null(bytes: &Vec<u8>, pos: &mut usize) -> (r: Option<Vec<u8>>)
    requires
        *old(pos) <= bytes@.len(),
    ensures
        match r {
            Some(v) => {
                let end = find_null(bytes@, *old(pos) as int);
                &&& end < bytes@.len()
                &&& v@ == bytes@.subrange(*old(pos) as int, end)
                &&& *final(pos) == end + 1
            },
            None => find_null(bytes@, *old(pos) as int) == bytes@.len() && *final(pos) == *old(
                pos,
            ),
        },
{
    let start = *pos;
    let mut i = start;
    while i < bytes.len() && bytes[i] != 0
        invariant
            start <= i <= bytes@.len(),
            find_null(bytes@, start as int) == find_null(bytes@, i as int),
        decreases bytes@.len() - i,
    {
        i = i + 1;
    }
    if i == bytes.len() {
        return None;
    }
    let mut out: Vec<u8> = Vec::new();
    let mut j = start;
    while j < i
        invariant
            start <= j <= i < bytes@.len(),
            out@ == bytes@.subrange(start as int, j as int),
        decreases i - j,
    {
        out.push(bytes[j]);
        assert(out@ =~= bytes@.subrange(start as int, j + 1));
        j = j + 1;
    }
    *pos = i + 1;
    Some(out)
}

// ---------------------------------------------------------------------------
// Executable writers
// ---------------------------------------------------------------------------

/// Append the big-endian encoding of `v`.
pub fn write_u16_be(out: &mut Vec<u8>, v: u16)
    ensures
        final(out)@ == old(out)@ + u16_be_bytes(v),
{
    out.push((v >> 8) as u8);
    out.push(v as u8);
    assert(out@ =~= old(out)@ + u16_be_bytes(v));
}

/// Append the big-endian encoding of `v`.
pub fn write_u32_be(out: &mut Vec<u8>, v: u32)
    ensures
        final(out)@ == old(out)@ + u32_be_bytes(v),
{
    out.push((v >> 24) as u8);
    out.push((v >> 16) as u8);
    out.push((v >> 8) as u8);
    out.push(v as u8);
    assert(out@ =~= old(out)@ + u32_be_bytes(v));
}

/// Append the big-endian encoding of `v`.
pub fn write_u64_be(out: &mut Vec<u8>, v: u64)
    ensures
        final(out)@ == old(out)@ + u64_be_bytes(v),
{
    out.push((v >> 56) as u8);
    out.push((v >> 48) as u8);
    out.push((v >> 40) as u8);
    out.push((v >> 32) as u8);
    out.push((v >> 24) as u8);
    out.push((v >> 16) as u8);
    out.push((v >> 8) as u8);
    out.push(v as u8);
    assert(out@ =~= old(out)@ + u64_be_bytes(v));
}

/// Append the little-endian encoding of `v`.
pub fn write_u64_le(out: &mut Vec<u8>, v: u64)
    ensures
        final(out)@ == old(out)@ + u64_le_bytes(v),
{
    out.push(v as u8);
    out.push((v >> 8) as u8);
    out.push((v >> 16) as u8);
    out.push((v >> 24) as u8);
    out.push((v >> 32) as u8);
    out.push((v >> 40) as u8);
    out.push((v >> 48) as u8);
    out.push((v >> 56) as u8);
    assert(out@ =~= old(out)@ + u64_le_bytes(v));
}

/// Append every byte of `s`.
pub fn push_bytes(out: &mut Vec<u8>, s: &Vec<u8>)
    ensures
        final(out)@ == old(out)@ + s@,
{
    let mut j: usize = 0;
    while j < s.len()
        invariant
            j <= s@.len(),
            out@ == old(out)@ + s@.subrange(0, j as int),
        decreases s@.len() - j,
    {
        out.push(s[j]);
        assert(out@ =~= old(out)@ + s@.subrange(0, j + 1));
        j = j + 1;
    }
    assert(out@ =~= old(out)@ + s@);
}

/// Append a slice of `s`, from `from` up to `to`.
pub fn push_byte_range(out: &mut Vec<u8>, s: &Vec<u8>, from: usize, to: usize)
    requires
        from <= to <= s@.len(),
    ensures
        final(out)@ == old(out)@ + s@.subrange(from as int, to as int),
{
    let mut j: usize = from;
    while j < to
        invariant
            from <= j <= to <= s@.len(),
            out@ == old(out)@ + s@.subrange(from as int, j as int),
        decreases to - j,
    {
        out.push(s[j]);
        assert(out@ =~= old(out)@ + s@.subrange(from as int, j + 1));
        j = j + 1;
    }
}

/// Append the bytes of `s` followed by a single zero terminator.
pub fn write_string_to_null(out: &mut Vec<u8>, s: &Vec<u8>)
    ensures
        final(out)@ == old(out)@ + s@ + seq![0u8],
{
    push_bytes(out, s);
    out.push(0u8);
    assert(out@ =~= old(out)@ + s@ + seq![0u8]);
}

/// Zero bytes needed to advance `pos` to a multiple of `alignment`.
pub fn padding_for_alignment(pos: usize, alignment: usize) -> (r: usize)
    requires
        alignment > 0,
    ensures
        r == spec_padding(pos as int, alignment as int),
        r < alignment,
        (pos + r) % (alignment as int) == 0,
{
    let rem = pos % alignment;
    let r = if rem == 0 {
        0
    } else {
        alignment - rem
    };
    proof {
        let p = pos as int;
        let a = alignment as int;
        assert((p + spec_padding(p, a)) % a == 0) by (nonlinear_arith)
            requires
                a > 0,
                p >= 0,
        ;
    }
    r
}

/// Append zero bytes until the length is a multiple of `alignment`.
pub fn align_writer(out: &mut Vec<u8>, alignment: usize)
    requires
        alignment > 0,
    ensures
        final(out)@ == old(out)@ + zero_bytes(spec_padding(old(out)@.len() as int, alignment as int)),
        (final(out)@.len() as int) % (alignment as int) == 0,
        final(out)@.len() < old(out)@.len() + alignment,
{
    let pad = padding_for_alignment(out.len(), alignment);
    let mut j: usize = 0;
    while j < pad
        invariant
            j <= pad,
            out@ == old(out)@ + zero_bytes(j as int),
        decreases pad - j,
    {
        out.push(0u8);
        assert(out@ =~= old(out)@ + zero_bytes(j + 1));
        j = j + 1;
    }
}

/// Overwrite eight bytes at `pos` with the big-endian encoding of `v`.
pub fn patch_u64_be(out: &mut Vec<u8>, pos: usize, v: u64)
    requires
        pos + 8 <= old(out)@.len(),
    ensures
        final(out)@ == old(out)@.subrange(0, pos as int) + u64_be_bytes(v) + old(out)@.skip(
            pos as int + 8,
        ),
        final(out)@.len() == old(out)@.len(),
{
    let len = out.len();
    assert(pos + 8 <= len);
    out.set(pos, (v >> 56) as u8);
    out.set(pos + 1, (v >> 48) as u8);
    out.set(pos + 2, (v >> 40) as u8);
    out.set(pos + 3, (v >> 32) as u8);
    out.set(pos + 4, (v >> 24) as u8);
    out.set(pos + 5, (v >> 16) as u8);
    out.set(pos + 6, (v >> 8) as u8);
    out.set(pos + 7, v as u8);
    assert(out@ =~= old(out)@.subrange(0, pos as int) + u64_be_bytes(v) + old(out)@.skip(
        pos as int + 8,
    ));
}

} // verus!
