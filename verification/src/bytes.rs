//! Big-endian integers and the byte sequences the container is made of.
use vstd::prelude::*;

verus! {

// ─── Model ───────────────────────────────────────────────────────────

/// The two bytes of `v`, most significant first.
#[verifier::opaque]
pub open spec fn be16(v: u16) -> Seq<u8> {
    seq![(v / 0x100) as u8, (v % 0x100) as u8]
}

/// The four bytes of `v`, most significant first.
#[verifier::opaque]
pub open spec fn be32(v: u32) -> Seq<u8> {
    seq![
        (v / 0x100_0000) as u8,
        (v / 0x1_0000 % 0x100) as u8,
        (v / 0x100 % 0x100) as u8,
        (v % 0x100) as u8,
    ]
}

/// The eight bytes of `v`, most significant first.
#[verifier::opaque]
pub open spec fn be64(v: u64) -> Seq<u8> {
    be32((v / 0x1_0000_0000) as u32) + be32((v % 0x1_0000_0000) as u32)
}

/// `n` zero bytes.
#[verifier::opaque]
pub open spec fn zeros(n: nat) -> Seq<u8> {
    Seq::new(n, |i: int| 0u8)
}

/// The low 32 bits of `n`: what a 32-bit field holds of it.
pub open spec fn low32(n: int) -> u32 {
    (n % 0x1_0000_0000) as u32
}

/// The low 16 bits of `n`: what a 16-bit field holds of it.
pub open spec fn low16(n: int) -> u16 {
    (n % 0x1_0000) as u16
}

/// `s` with the four bytes at `pos` replaced by `v`.
#[verifier::opaque]
pub open spec fn patched(s: Seq<u8>, pos: int, v: u32) -> Seq<u8> {
    s.take(pos) + be32(v) + s.skip(pos + 4)
}

/// All of `parts`, one after the other.
pub open spec fn concat(parts: Seq<Seq<u8>>) -> Seq<u8>
    decreases parts.len(),
{
    if parts.len() == 0 {
        Seq::empty()
    } else {
        concat(parts.drop_last()) + parts.last()
    }
}

/// All of `values` as 32-bit fields, one after the other.
pub open spec fn be32_table(values: Seq<u32>) -> Seq<u8>
    decreases values.len(),
{
    if values.len() == 0 {
        Seq::empty()
    } else {
        be32_table(values.drop_last()) + be32(values.last())
    }
}

/// The 16-bit field at `pos`.
pub open spec fn u16_at(s: Seq<u8>, pos: int) -> int {
    s[pos] * 0x100 + s[pos + 1]
}

/// The 32-bit field at `pos`.
pub open spec fn u32_at(s: Seq<u8>, pos: int) -> int {
    s[pos] * 0x100_0000 + s[pos + 1] * 0x1_0000 + s[pos + 2] * 0x100 + s[pos + 3]
}

/// The 64-bit field at `pos`.
pub open spec fn u64_at(s: Seq<u8>, pos: int) -> int {
    u32_at(s, pos) * 0x1_0000_0000 + u32_at(s, pos + 4)
}

// ─── Facts about the model ───────────────────────────────────────────

pub broadcast proof fn lemma_be16_len(v: u16)
    ensures
        #[trigger] be16(v).len() == 2,
{
    reveal(be16);
}

pub broadcast proof fn lemma_be32_len(v: u32)
    ensures
        #[trigger] be32(v).len() == 4,
{
    reveal(be32);
}

pub broadcast proof fn lemma_be64_len(v: u64)
    ensures
        #[trigger] be64(v).len() == 8,
{
    reveal(be64);
    reveal(be32);
}

pub broadcast proof fn lemma_zeros_len(n: nat)
    ensures
        #[trigger] zeros(n).len() == n,
{
    reveal(zeros);
}

/// Appending in two steps appends both.
pub broadcast proof fn lemma_append_twice(a: Seq<u8>, b: Seq<u8>, c: Seq<u8>)
    ensures
        #[trigger] (a + b + c) == a + (b + c),
{
    assert(a + b + c =~= a + (b + c));
}

/// Appending nothing changes nothing.
pub broadcast proof fn lemma_append_nothing(a: Seq<u8>)
    ensures
        #[trigger] (a + Seq::<u8>::empty()) == a,
{
    assert(a + Seq::<u8>::empty() =~= a);
}

pub broadcast group group_append {
    lemma_be16_len,
    lemma_be32_len,
    lemma_be64_len,
    lemma_zeros_len,
    lemma_append_twice,
    lemma_append_nothing,
}

/// A 16-bit field reads back as what was written to it.
pub broadcast proof fn lemma_u16_at(before: Seq<u8>, v: u16, after: Seq<u8>)
    ensures
        #[trigger] u16_at(before + (be16(v) + after), before.len() as int) == v,
{
    reveal(be16);
    let s = before + (be16(v) + after);
    let n = before.len() as int;
    assert(s[n] == be16(v)[0] && s[n + 1] == be16(v)[1]);
}

/// A 32-bit field reads back as what was written to it.
pub broadcast proof fn lemma_u32_at(before: Seq<u8>, v: u32, after: Seq<u8>)
    ensures
        #[trigger] u32_at(before + (be32(v) + after), before.len() as int) == v,
{
    reveal(be32);
    let s = before + (be32(v) + after);
    let n = before.len() as int;
    assert(s[n] == be32(v)[0] && s[n + 1] == be32(v)[1]);
    assert(s[n + 2] == be32(v)[2] && s[n + 3] == be32(v)[3]);
}

/// A 64-bit field reads back as what was written to it.
pub broadcast proof fn lemma_u64_at(before: Seq<u8>, v: u64, after: Seq<u8>)
    ensures
        #[trigger] u64_at(before + (be64(v) + after), before.len() as int) == v,
{
    reveal(be64);
    let hi = (v / 0x1_0000_0000) as u32;
    let lo = (v % 0x1_0000_0000) as u32;
    let s = before + (be64(v) + after);
    lemma_be32_len(hi);
    assert(s =~= before + (be32(hi) + (be32(lo) + after)));
    assert(s =~= (before + be32(hi)) + (be32(lo) + after));
    lemma_u32_at(before, hi, be32(lo) + after);
    lemma_u32_at(before + be32(hi), lo, after);
}

/// A field past the first part is a field of what follows it.
pub broadcast proof fn lemma_u16_past(a: Seq<u8>, rest: Seq<u8>, pos: int)
    requires
        a.len() <= pos,
        pos + 2 <= a.len() + rest.len(),
    ensures
        #[trigger] u16_at(a + rest, pos) == u16_at(rest, pos - a.len()),
{
}

/// A field past the first part is a field of what follows it.
pub broadcast proof fn lemma_u32_past(a: Seq<u8>, rest: Seq<u8>, pos: int)
    requires
        a.len() <= pos,
        pos + 4 <= a.len() + rest.len(),
    ensures
        #[trigger] u32_at(a + rest, pos) == u32_at(rest, pos - a.len()),
{
}

/// A field past the first part is a field of what follows it.
pub broadcast proof fn lemma_u64_past(a: Seq<u8>, rest: Seq<u8>, pos: int)
    requires
        a.len() <= pos,
        pos + 8 <= a.len() + rest.len(),
    ensures
        #[trigger] u64_at(a + rest, pos) == u64_at(rest, pos - a.len()),
{
}

/// A field at the front reads back as what was written to it.
pub broadcast proof fn lemma_u16_front(v: u16, rest: Seq<u8>, pos: int)
    requires
        pos == 0,
    ensures
        #[trigger] u16_at(be16(v) + rest, pos) == v,
{
    let nothing = Seq::<u8>::empty();
    lemma_u16_at(nothing, v, rest);
    assert(nothing + (be16(v) + rest) =~= be16(v) + rest);
}

/// A field alone reads back as what was written to it.
pub broadcast proof fn lemma_u16_alone(v: u16, pos: int)
    requires
        pos == 0,
    ensures
        #[trigger] u16_at(be16(v), pos) == v,
{
    let nothing = Seq::<u8>::empty();
    lemma_u16_at(nothing, v, nothing);
    assert(nothing + (be16(v) + nothing) =~= be16(v));
}

/// A field at the front reads back as what was written to it.
pub broadcast proof fn lemma_u32_front(v: u32, rest: Seq<u8>, pos: int)
    requires
        pos == 0,
    ensures
        #[trigger] u32_at(be32(v) + rest, pos) == v,
{
    let nothing = Seq::<u8>::empty();
    lemma_u32_at(nothing, v, rest);
    assert(nothing + (be32(v) + rest) =~= be32(v) + rest);
}

/// A field alone reads back as what was written to it.
pub broadcast proof fn lemma_u32_alone(v: u32, pos: int)
    requires
        pos == 0,
    ensures
        #[trigger] u32_at(be32(v), pos) == v,
{
    let nothing = Seq::<u8>::empty();
    lemma_u32_at(nothing, v, nothing);
    assert(nothing + (be32(v) + nothing) =~= be32(v));
}

/// A field at the front reads back as what was written to it.
pub broadcast proof fn lemma_u64_front(v: u64, rest: Seq<u8>, pos: int)
    requires
        pos == 0,
    ensures
        #[trigger] u64_at(be64(v) + rest, pos) == v,
{
    let nothing = Seq::<u8>::empty();
    lemma_u64_at(nothing, v, rest);
    assert(nothing + (be64(v) + rest) =~= be64(v) + rest);
}

/// A field alone reads back as what was written to it.
pub broadcast proof fn lemma_u64_alone(v: u64, pos: int)
    requires
        pos == 0,
    ensures
        #[trigger] u64_at(be64(v), pos) == v,
{
    let nothing = Seq::<u8>::empty();
    lemma_u64_at(nothing, v, nothing);
    assert(nothing + (be64(v) + nothing) =~= be64(v));
}

pub broadcast group group_fields {
    lemma_u16_past,
    lemma_u32_past,
    lemma_u64_past,
    lemma_u16_front,
    lemma_u32_front,
    lemma_u64_front,
    lemma_u16_alone,
    lemma_u32_alone,
    lemma_u64_alone,
}

/// The length of a patched sequence is that of the sequence.
pub proof fn lemma_patched_len(s: Seq<u8>, pos: int, v: u32)
    requires
        0 <= pos,
        pos + 4 <= s.len(),
    ensures
        patched(s, pos, v).len() == s.len(),
{
    reveal(patched);
    lemma_be32_len(v);
}

/// Patching the first part leaves what follows it.
pub proof fn lemma_patched_first(a: Seq<u8>, b: Seq<u8>, pos: int, v: u32)
    requires
        0 <= pos,
        pos + 4 <= a.len(),
    ensures
        patched(a + b, pos, v) == patched(a, pos, v) + b,
{
    reveal(patched);
    lemma_be32_len(v);
    assert(patched(a + b, pos, v) =~= patched(a, pos, v) + b);
}

/// Patching the second part leaves what precedes it.
pub proof fn lemma_patched_second(a: Seq<u8>, b: Seq<u8>, pos: int, v: u32)
    requires
        a.len() <= pos,
        pos + 4 <= a.len() + b.len(),
    ensures
        patched(a + b, pos, v) == a + patched(b, pos - a.len(), v),
{
    reveal(patched);
    lemma_be32_len(v);
    assert(patched(a + b, pos, v) =~= a + patched(b, pos - a.len(), v));
}

/// Patching a 32-bit field gives the field its new value.
pub proof fn lemma_patched_field(before: Seq<u8>, old_v: u32, after: Seq<u8>, v: u32)
    ensures
        patched(before + (be32(old_v) + after), before.len() as int, v) == before + (be32(v)
            + after),
{
    reveal(patched);
    lemma_be32_len(v);
    lemma_be32_len(old_v);
    assert(patched(before + (be32(old_v) + after), before.len() as int, v) =~= before + (be32(v)
        + after));
}

/// The bytes of the parts of two lists are those of the first and then those of the second.
pub proof fn lemma_concat_add(a: Seq<Seq<u8>>, b: Seq<Seq<u8>>)
    ensures
        concat(a + b) == concat(a) + concat(b),
    decreases b.len(),
{
    if b.len() == 0 {
        assert(a + b =~= a);
        assert(concat(a) + concat(b) =~= concat(a));
    } else {
        lemma_concat_add(a, b.drop_last());
        assert((a + b).drop_last() =~= a + b.drop_last());
        assert(concat(a + b) =~= concat(a) + concat(b));
    }
}

/// A table of `n` fields is `4 * n` bytes long.
pub broadcast proof fn lemma_be32_table_len(values: Seq<u32>)
    ensures
        #[trigger] be32_table(values).len() == 4 * values.len(),
    decreases values.len(),
{
    if values.len() > 0 {
        lemma_be32_table_len(values.drop_last());
        lemma_be32_len(values.last());
    }
}

/// Each field of a table reads back as the value it was written for.
pub proof fn lemma_be32_table_at(before: Seq<u8>, values: Seq<u32>, after: Seq<u8>, i: int)
    requires
        0 <= i < values.len(),
    ensures
        u32_at(before + (be32_table(values) + after), before.len() + 4 * i) == values[i],
    decreases values.len(),
{
    broadcast use {lemma_be32_len, lemma_be32_table_len};

    let head = values.drop_last();
    let last = values.last();
    let s = before + (be32_table(values) + after);
    if i == values.len() - 1 {
        assert(s =~= (before + be32_table(head)) + (be32(last) + after));
        lemma_u32_at(before + be32_table(head), last, after);
    } else {
        assert(s =~= before + (be32_table(head) + (be32(last) + after)));
        lemma_be32_table_at(before, head, be32(last) + after, i);
    }
}

// ─── Writers ─────────────────────────────────────────────────────────

/// What a 32-bit field holds of `n`.
pub fn truncate_u32(n: u64) -> (r: u32)
    ensures
        r == low32(n as int),
{
    (n % 0x1_0000_0000) as u32
}

/// What a 16-bit field holds of `n`.
pub fn truncate_u16(n: u64) -> (r: u16)
    ensures
        r == low16(n as int),
{
    (n % 0x1_0000) as u16
}

/// Append `v` in big-endian order.
pub fn write_u16(out: &mut Vec<u8>, v: u16)
    ensures
        final(out)@ == old(out)@ + be16(v),
{
    reveal(be16);
    out.push((v / 0x100) as u8);
    out.push((v % 0x100) as u8);
}

/// Append `v` in big-endian order.
pub fn write_u32(out: &mut Vec<u8>, v: u32)
    ensures
        final(out)@ == old(out)@ + be32(v),
{
    reveal(be32);
    out.push((v / 0x100_0000) as u8);
    out.push((v / 0x1_0000 % 0x100) as u8);
    out.push((v / 0x100 % 0x100) as u8);
    out.push((v % 0x100) as u8);
}

/// Append `v` in big-endian order.
pub fn write_u64(out: &mut Vec<u8>, v: u64)
    ensures
        final(out)@ == old(out)@ + be64(v),
{
    reveal(be64);
    write_u32(out, (v / 0x1_0000_0000) as u32);
    write_u32(out, (v % 0x1_0000_0000) as u32);
}

/// Append `data`.
pub fn write_bytes(out: &mut Vec<u8>, data: &[u8])
    ensures
        final(out)@ == old(out)@ + data@,
{
    out.extend_from_slice(data);
}

/// Append `n` zero bytes.
pub fn write_zeros(out: &mut Vec<u8>, n: usize)
    ensures
        final(out)@ == old(out)@ + zeros(n as nat),
{
    reveal(zeros);
    let ghost before = out@;
    for i in 0..n
        invariant
            out@ == before + zeros(i as nat),
    {
        reveal(zeros);
        out.push(0);
    }
}

/// Append every one of `values`, each in big-endian order.
pub fn write_u32_table(out: &mut Vec<u8>, values: &[u32])
    ensures
        final(out)@ == old(out)@ + be32_table(values@),
{
    let ghost before = out@;
    for i in 0..values.len()
        invariant
            out@ == before + be32_table(values@.take(i as int)),
    {
        broadcast use lemma_append_twice;

        assert(values@.take(i + 1).drop_last() =~= values@.take(i as int));
        write_u32(out, values[i]);
    }
    assert(values@.take(values@.len() as int) =~= values@);
}

/// Write a big-endian `u32` at an exact byte position.
///
/// Used to fill in the offset fields at the positions recorded when they were
/// emitted. Nothing is searched for: frame payloads may hold any bytes at all,
/// those of the placeholders included, and stay as they are.
pub fn write_u32_at(out: &mut Vec<u8>, pos: usize, value: u32)
    requires
        pos + 4 <= old(out)@.len(),
    ensures
        final(out)@ == patched(old(out)@, pos as int, value),
{
    reveal(be32);
    reveal(patched);
    assert(out@.len() == out.len());
    out[pos] = (value / 0x100_0000) as u8;
    out[pos + 1] = (value / 0x1_0000 % 0x100) as u8;
    out[pos + 2] = (value / 0x100 % 0x100) as u8;
    out[pos + 3] = (value % 0x100) as u8;
}

} // verus!
