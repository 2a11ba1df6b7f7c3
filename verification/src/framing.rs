//! Box framing: a 32-bit size, a four-character type, and a payload.
use vstd::prelude::*;

use crate::bytes;
use crate::bytes::{truncate_u32, write_u32, write_u32_at};

verus! {

// ─── Model ───────────────────────────────────────────────────────────

/// A box of type `kind` around `payload`. The size counts the whole box.
#[verifier::opaque]
pub open spec fn mp4_box(kind: u32, payload: Seq<u8>) -> Seq<u8> {
    bytes::be32(bytes::low32(8 + payload.len() as int)) + bytes::be32(kind) + payload
}

/// The word that opens a full box: a version and 24 bits of flags.
#[verifier::opaque]
pub open spec fn version_flags(version: u8, flags: u32) -> Seq<u8> {
    seq![
        version,
        (flags / 0x1_0000 % 0x100) as u8,
        (flags / 0x100 % 0x100) as u8,
        (flags % 0x100) as u8,
    ]
}

/// A box whose payload is preceded by a version and flags.
pub open spec fn full_box(kind: u32, version: u8, flags: u32, payload: Seq<u8>) -> Seq<u8> {
    mp4_box(kind, version_flags(version, flags) + payload)
}

/// The header of a box whose size is not known yet.
#[verifier::opaque]
pub open spec fn box_start(kind: u32) -> Seq<u8> {
    bytes::be32(0) + bytes::be32(kind)
}

/// `s` with the size field of the box that starts at `pos` and runs to the end filled in.
pub open spec fn closed_at(s: Seq<u8>, pos: int) -> Seq<u8> {
    bytes::patched(s, pos, bytes::low32(s.len() - pos))
}

// ─── Facts about the model ───────────────────────────────────────────

pub broadcast proof fn lemma_version_flags_len(version: u8, flags: u32)
    ensures
        #[trigger] version_flags(version, flags).len() == 4,
{
    reveal(version_flags);
}

/// A full box starts with its version, and the low byte of its flags is the fourth.
pub proof fn lemma_version_first(version: u8, flags: u32, rest: Seq<u8>)
    ensures
        (version_flags(version, flags) + rest)[0] == version,
        (version_flags(version, flags) + rest)[3] == flags % 0x100,
{
    reveal(version_flags);
}

pub broadcast proof fn lemma_box_len(kind: u32, payload: Seq<u8>)
    ensures
        #[trigger] mp4_box(kind, payload).len() == 8 + payload.len(),
{
    broadcast use bytes::group_append;

    reveal(mp4_box);
}

pub broadcast proof fn lemma_box_start_len(kind: u32)
    ensures
        #[trigger] box_start(kind).len() == 8,
{
    broadcast use bytes::group_append;

    reveal(box_start);
}

/// A box that was opened, filled and closed is a box.
pub broadcast proof fn lemma_box_closed(before: Seq<u8>, kind: u32, payload: Seq<u8>)
    ensures
        #[trigger] closed_at(before + (box_start(kind) + payload), before.len() as int) == before
            + mp4_box(kind, payload),
{
    broadcast use bytes::group_append;

    reveal(mp4_box);
    reveal(box_start);
    let s = before + (box_start(kind) + payload);
    let size = bytes::low32(8 + payload.len() as int);
    assert(s.len() - before.len() == 8 + payload.len());
    assert(s == before + (bytes::be32(0) + (bytes::be32(kind) + payload)));
    bytes::lemma_patched_field(before, 0, bytes::be32(kind) + payload, size);
}

pub broadcast group group_framing {
    bytes::group_append,
    lemma_version_flags_len,
    lemma_box_len,
    lemma_box_start_len,
    lemma_box_closed,
}

/// Patching a field inside a box patches its payload.
pub proof fn lemma_patched_box(kind: u32, payload: Seq<u8>, pos: int, v: u32)
    requires
        8 <= pos,
        pos + 4 <= 8 + payload.len(),
    ensures
        bytes::patched(mp4_box(kind, payload), pos, v) == mp4_box(
            kind,
            bytes::patched(payload, pos - 8, v),
        ),
{
    broadcast use bytes::group_append;

    reveal(mp4_box);
    let head = bytes::be32(bytes::low32(8 + payload.len() as int)) + bytes::be32(kind);
    bytes::lemma_patched_second(head, payload, pos, v);
    bytes::lemma_patched_len(payload, pos - 8, v);
}

// ─── Writers ─────────────────────────────────────────────────────────

/// Start a box, and return its position for [`end_box`].
pub fn begin_box(out: &mut Vec<u8>, kind: u32) -> (pos: usize)
    ensures
        pos == old(out)@.len(),
        final(out)@ == old(out)@ + box_start(kind),
{
    broadcast use bytes::group_append;

    reveal(box_start);
    let pos: usize = out.len();
    write_u32(out, 0);
    write_u32(out, kind);
    pos
}

/// Fill in the size of the box that starts at `pos` and runs to the end.
pub fn end_box(out: &mut Vec<u8>, pos: usize)
    requires
        pos + 4 <= old(out)@.len(),
    ensures
        final(out)@ == closed_at(old(out)@, pos as int),
{
    let size: u32 = truncate_u32((out.len() - pos) as u64);
    write_u32_at(out, pos, size);
}

/// Append the version and flags of a full box.
pub fn write_fullbox(out: &mut Vec<u8>, version: u8, flags: u32)
    ensures
        final(out)@ == old(out)@ + version_flags(version, flags),
{
    reveal(version_flags);
    out.push(version);
    out.push((flags / 0x1_0000 % 0x100) as u8);
    out.push((flags / 0x100 % 0x100) as u8);
    out.push((flags % 0x100) as u8);
}

} // verus!
