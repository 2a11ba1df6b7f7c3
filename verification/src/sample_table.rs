//! The tables that tell a reader where the samples of a track are, how large
//! they are, how long they last, and where decoding can start.
use vstd::prelude::*;

use crate::bytes;
use crate::bytes::{truncate_u32, write_u32, write_u32_table};
use crate::fourcc::{STCO, STSC, STSS, STSZ, STTS};
use crate::framing;
use crate::framing::{begin_box, end_box, write_fullbox};

verus! {

/// What the chunk's offset field holds until the media's position is known.
pub const STCO_PLACEHOLDER: u32 = 0xDEAD_BEEF;

// ─── Durations, run-length encoded ───────────────────────────────────

/// The runs of equal durations: how many samples each has, and how long every
/// one of them lasts.
pub open spec fn runs(durations: Seq<u32>) -> Seq<(nat, u32)>
    decreases durations.len(),
{
    if durations.len() == 0 {
        Seq::empty()
    } else {
        let earlier = runs(durations.drop_last());
        let last = durations.last();
        if earlier.len() > 0 && earlier.last().1 == last {
            earlier.drop_last().push((earlier.last().0 + 1, last))
        } else {
            earlier.push((1, last))
        }
    }
}

/// Whether a 32-bit field can hold the length of every run.
pub open spec fn runs_fit(durations: Seq<u32>) -> bool {
    forall|i: int|
        0 <= i < runs(durations).len() ==> (#[trigger] runs(durations)[i]).0 <= u32::MAX
}

/// The entries of the time-to-sample table, one after the other.
pub open spec fn run_table(entries: Seq<(u32, u32)>) -> Seq<u8>
    decreases entries.len(),
{
    if entries.len() == 0 {
        Seq::empty()
    } else {
        run_table(entries.drop_last()) + (bytes::be32(entries.last().0) + bytes::be32(
            entries.last().1,
        ))
    }
}

/// The runs as the table's entries hold them.
pub open spec fn entries_of(runs: Seq<(nat, u32)>) -> Seq<(u32, u32)> {
    runs.map_values(|run: (nat, u32)| (run.0 as u32, run.1))
}

/// The `stts` box: how long the samples last.
#[verifier::opaque]
pub open spec fn stts_box(durations: Seq<u32>) -> Seq<u8> {
    framing::full_box(
        STTS,
        0,
        0,
        bytes::be32(bytes::low32(runs(durations).len() as int)) + run_table(
            entries_of(runs(durations)),
        ),
    )
}

/// There are no more runs than samples, and no run is longer than all samples together.
pub proof fn lemma_runs_bound(durations: Seq<u32>)
    ensures
        runs(durations).len() <= durations.len(),
        durations.len() > 0 ==> runs(durations).len() > 0,
        forall|i: int|
            0 <= i < runs(durations).len() ==> 1 <= (#[trigger] runs(durations)[i]).0
                <= durations.len(),
    decreases durations.len(),
{
    if durations.len() > 0 {
        lemma_runs_bound(durations.drop_last());
    }
}

/// No run of a prefix is longer than what it grows to.
proof fn lemma_runs_grow(durations: Seq<u32>, n: int)
    requires
        0 <= n <= durations.len(),
    ensures
        runs(durations.take(n)).len() <= runs(durations).len(),
        forall|i: int|
            0 <= i < runs(durations.take(n)).len() ==> (#[trigger] runs(durations.take(n))[i]).0
                <= runs(durations)[i].0,
    decreases durations.len(),
{
    if n == durations.len() {
        assert(durations.take(n) =~= durations);
    } else {
        lemma_runs_grow(durations.drop_last(), n);
        assert(durations.drop_last().take(n) =~= durations.take(n));
    }
}

/// The runs of equal durations.
fn encode_runs(durations: &[u32]) -> (entries: Vec<(u32, u32)>)
    requires
        runs_fit(durations@),
    ensures
        entries@ == entries_of(runs(durations@)),
{
    let mut entries: Vec<(u32, u32)> = Vec::new();
    for i in 0..durations.len()
        invariant
            runs_fit(durations@),
            entries@ == entries_of(runs(durations@.take(i as int))),
    {
        let duration: u32 = durations[i];
        let n: usize = entries.len();
        let ghost earlier = runs(durations@.take(i as int));
        assert(durations@.take(i + 1).drop_last() =~= durations@.take(i as int));
        proof {
            lemma_runs_grow(durations@, i as int);
            lemma_runs_grow(durations@, i + 1);
        }
        if n > 0 && entries[n - 1].1 == duration {
            assert(entries@[n - 1] == (earlier[n - 1].0 as u32, earlier[n - 1].1));
            assert(runs(durations@.take(i + 1))[n - 1].0 == earlier[n - 1].0 + 1);
            assert(runs(durations@)[n - 1].0 <= u32::MAX);
            let count: u32 = entries[n - 1].0 + 1;
            entries[n - 1] = (count, duration);
        } else {
            if n > 0 {
                assert(entries@[n - 1] == (earlier[n - 1].0 as u32, earlier[n - 1].1));
            }
            entries.push((1, duration));
        }
        assert(entries@ =~= entries_of(runs(durations@.take(i + 1))));
    }
    assert(durations@.take(durations@.len() as int) =~= durations@);
    entries
}

/// Append the entries of the time-to-sample table.
fn write_runs(out: &mut Vec<u8>, entries: &Vec<(u32, u32)>)
    ensures
        final(out)@ == old(out)@ + run_table(entries@),
{
    let ghost before = out@;
    assert(before + run_table(entries@.take(0)) =~= before);
    for i in 0..entries.len()
        invariant
            out@ == before + run_table(entries@.take(i as int)),
    {
        broadcast use bytes::lemma_append_twice;

        assert(entries@.take(i + 1).drop_last() =~= entries@.take(i as int));
        write_u32(out, entries[i].0);
        write_u32(out, entries[i].1);
    }
    assert(entries@.take(entries@.len() as int) =~= entries@);
}

/// Append the `stts` box.
pub fn write_stts(out: &mut Vec<u8>, durations: &[u32])
    requires
        runs_fit(durations@),
    ensures
        final(out)@ == old(out)@ + stts_box(durations@),
{
    reveal(stts_box);
    broadcast use framing::group_framing;

    let pos: usize = begin_box(out, STTS);
    write_fullbox(out, 0, 0);
    let entries: Vec<(u32, u32)> = encode_runs(durations);
    write_u32(out, truncate_u32(entries.len() as u64));
    write_runs(out, &entries);
    end_box(out, pos);
}

// ─── Chunks, sizes, offsets and sync samples ─────────────────────────

/// The `stsc` box: all samples lie in one chunk.
#[verifier::opaque]
pub open spec fn stsc_box(samples: nat) -> Seq<u8> {
    framing::full_box(
        STSC,
        0,
        0,
        bytes::be32(1) + bytes::be32(1) + bytes::be32(bytes::low32(samples as int)) + bytes::be32(
            1,
        ),
    )
}

/// The length of each sample.
pub open spec fn sizes(samples: Seq<Seq<u8>>) -> Seq<u32> {
    Seq::new(samples.len(), |i: int| bytes::low32(samples[i].len() as int))
}

/// The `stsz` box: how large the samples are.
#[verifier::opaque]
pub open spec fn stsz_box(samples: Seq<Seq<u8>>) -> Seq<u8> {
    framing::full_box(
        STSZ,
        0,
        0,
        bytes::be32(0) + bytes::be32(bytes::low32(samples.len() as int)) + bytes::be32_table(
            sizes(samples),
        ),
    )
}

/// The `stco` box: where the chunk is.
#[verifier::opaque]
pub open spec fn stco_box(offset: u32) -> Seq<u8> {
    framing::full_box(STCO, 0, 0, bytes::be32(1) + bytes::be32(offset))
}

/// The `stss` box: the samples that decoding can start at, counted from one.
#[verifier::opaque]
pub open spec fn stss_box(sync: Seq<u32>) -> Seq<u8> {
    framing::full_box(
        STSS,
        0,
        0,
        bytes::be32(bytes::low32(sync.len() as int)) + bytes::be32_table(sync),
    )
}

/// What each of `frames` holds.
pub open spec fn sample_views(frames: Seq<&[u8]>) -> Seq<Seq<u8>> {
    frames.map_values(|frame: &[u8]| frame@)
}

/// Append the `stsc` box.
pub fn write_stsc(out: &mut Vec<u8>, samples: usize)
    ensures
        final(out)@ == old(out)@ + stsc_box(samples as nat),
{
    reveal(stsc_box);
    broadcast use framing::group_framing;

    let pos: usize = begin_box(out, STSC);
    write_fullbox(out, 0, 0);
    write_u32(out, 1);  // entry_count
    write_u32(out, 1);  // first_chunk
    write_u32(out, truncate_u32(samples as u64));  // samples_per_chunk
    write_u32(out, 1);  // sample_description_index
    end_box(out, pos);
}

/// Append the `stsz` box.
pub fn write_stsz(out: &mut Vec<u8>, frames: &[&[u8]])
    ensures
        final(out)@ == old(out)@ + stsz_box(sample_views(frames@)),
{
    reveal(stsz_box);
    broadcast use framing::group_framing;

    let ghost all = sizes(sample_views(frames@));
    let pos: usize = begin_box(out, STSZ);
    write_fullbox(out, 0, 0);
    write_u32(out, 0);  // sample_size: every sample has its own
    write_u32(out, truncate_u32(frames.len() as u64));
    let ghost head = out@;
    assert(all.take(0) =~= Seq::empty());
    for i in 0..frames.len()
        invariant
            all == sizes(sample_views(frames@)),
            out@ == head + bytes::be32_table(all.take(i as int)),
    {
        broadcast use bytes::group_append;

        assert(all.take(i + 1).drop_last() =~= all.take(i as int));
        write_u32(out, truncate_u32(frames[i].len() as u64));
    }
    assert(all.take(all.len() as int) =~= all);
    end_box(out, pos);
}

/// Append the `stco` box with a placeholder for the offset, and return the
/// position of the offset.
pub fn write_stco(out: &mut Vec<u8>) -> (pos: usize)
    ensures
        final(out)@ == old(out)@ + stco_box(STCO_PLACEHOLDER),
        old(out)@.len() <= pos,
        pos + 4 <= final(out)@.len(),
        forall|offset: u32| #[trigger]
            bytes::patched(stco_box(STCO_PLACEHOLDER), pos - old(out)@.len(), offset) == stco_box(
                offset,
            ),
{
    reveal(stco_box);
    broadcast use framing::group_framing;

    let pos: usize = begin_box(out, STCO);
    write_fullbox(out, 0, 0);
    write_u32(out, 1);  // entry_count
    let offset_pos: usize = out.len();
    write_u32(out, STCO_PLACEHOLDER);
    end_box(out, pos);
    proof {
        let head = framing::version_flags(0, 0) + bytes::be32(1);
        assert forall|offset: u32| #[trigger]
            bytes::patched(stco_box(STCO_PLACEHOLDER), offset_pos - old(out)@.len(), offset)
                == stco_box(offset) by {
            let nothing = Seq::<u8>::empty();
            let payload = head + (bytes::be32(STCO_PLACEHOLDER) + nothing);
            framing::lemma_patched_box(STCO, payload, offset_pos - old(out)@.len(), offset);
            bytes::lemma_patched_field(head, STCO_PLACEHOLDER, nothing, offset);
        }
    }
    offset_pos
}

/// Append the `stss` box.
pub fn write_stss(out: &mut Vec<u8>, sync_indices: &[u32])
    ensures
        final(out)@ == old(out)@ + stss_box(sync_indices@),
{
    reveal(stss_box);
    broadcast use framing::group_framing;

    let pos: usize = begin_box(out, STSS);
    write_fullbox(out, 0, 0);
    write_u32(out, truncate_u32(sync_indices.len() as u64));
    write_u32_table(out, sync_indices);
    end_box(out, pos);
}

} // verus!
