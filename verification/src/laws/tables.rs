//! The tables of durations and of sync samples.
use vstd::prelude::*;

use crate::animated::AnimFrameView;
use crate::bytes;
use crate::fourcc::STSS;
use crate::framing;
use crate::laws::samples;
use crate::navigation;
use crate::reader;
use crate::sample_table;
use crate::sequence;
use crate::sequence::SequenceView;

verus! {

// ─── Durations ───────────────────────────────────────────────────────

/// One run, sample by sample.
pub open spec fn repeated(run: (nat, u32)) -> Seq<u32> {
    Seq::new(run.0, |i: int| run.1)
}

/// All runs, sample by sample.
pub open spec fn expanded(runs: Seq<(nat, u32)>) -> Seq<u32>
    decreases runs.len(),
{
    if runs.len() == 0 {
        Seq::empty()
    } else {
        expanded(runs.drop_last()) + repeated(runs.last())
    }
}

proof fn lemma_expanded_add(a: Seq<(nat, u32)>, b: Seq<(nat, u32)>)
    ensures
        expanded(a + b) == expanded(a) + expanded(b),
    decreases b.len(),
{
    if b.len() == 0 {
        assert(a + b =~= a);
        assert(expanded(a) + expanded(b) =~= expanded(a));
    } else {
        lemma_expanded_add(a, b.drop_last());
        assert((a + b).drop_last() =~= a + b.drop_last());
        assert(expanded(a + b) =~= expanded(a) + expanded(b));
    }
}

proof fn lemma_expanded_first(runs: Seq<(nat, u32)>)
    requires
        runs.len() > 0,
    ensures
        expanded(runs) == repeated(runs[0]) + expanded(runs.skip(1)),
{
    let first = seq![runs[0]];
    assert(runs =~= first + runs.skip(1));
    lemma_expanded_add(first, runs.skip(1));
    assert(expanded(first.drop_last()) =~= Seq::empty());
    assert(expanded(first) =~= repeated(runs[0]));
}

/// The runs of a list of durations, sample by sample, are that list; no run is
/// empty, and no two runs next to each other could be one.
pub proof fn law_runs_expand(durations: Seq<u32>)
    ensures
        expanded(sample_table::runs(durations)) == durations,
        forall|i: int|
            0 <= i < sample_table::runs(durations).len() ==> (#[trigger] sample_table::runs(
                durations,
            )[i]).0 > 0,
        forall|i: int, j: int|
            #![trigger sample_table::runs(durations)[i], sample_table::runs(durations)[j]]
            0 <= i && j == i + 1 && j < sample_table::runs(durations).len()
                ==> sample_table::runs(durations)[i].1 != sample_table::runs(durations)[j].1,
    decreases durations.len(),
{
    if durations.len() > 0 {
        let earlier = sample_table::runs(durations.drop_last());
        let last = durations.last();
        law_runs_expand(durations.drop_last());
        if earlier.len() > 0 && earlier.last().1 == last {
            let grown = (earlier.last().0 + 1, last);
            let now = earlier.drop_last().push(grown);
            assert(sample_table::runs(durations) == now);
            assert(now.drop_last() =~= earlier.drop_last() && now.last() == grown);
            assert(expanded(now) == expanded(earlier.drop_last()) + repeated(grown));
            assert(repeated(grown) =~= repeated(earlier.last()).push(last));
            assert(expanded(earlier) == expanded(earlier.drop_last()) + repeated(earlier.last()));
            assert(expanded(now) =~= durations.drop_last().push(last));
            assert(durations =~= durations.drop_last().push(last));
        } else {
            assert(earlier.push((1, last)).drop_last() =~= earlier);
            assert(repeated((1, last)) =~= seq![last]);
            assert(expanded(sample_table::runs(durations)) =~= durations);
        }
    }
}

/// A table of `n` entries is `8 * n` bytes long.
pub proof fn lemma_run_table_len(entries: Seq<(u32, u32)>)
    ensures
        sample_table::run_table(entries).len() == 8 * entries.len(),
    decreases entries.len(),
{
    broadcast use bytes::lemma_be32_len;

    if entries.len() > 0 {
        lemma_run_table_len(entries.drop_last());
    }
}

proof fn lemma_run_table_at(before: Seq<u8>, entries: Seq<(u32, u32)>, after: Seq<u8>, i: int)
    requires
        0 <= i < entries.len(),
    ensures
        bytes::u32_at(
            before + (sample_table::run_table(entries) + after),
            before.len() + 8 * i,
        ) == entries[i].0,
        bytes::u32_at(
            before + (sample_table::run_table(entries) + after),
            before.len() + 8 * i + 4,
        ) == entries[i].1,
    decreases entries.len(),
{
    broadcast use bytes::lemma_be32_len;

    let head = entries.drop_last();
    let count = bytes::be32(entries.last().0);
    let delta = bytes::be32(entries.last().1);
    let s = before + (sample_table::run_table(entries) + after);
    lemma_run_table_len(head);
    if i == entries.len() - 1 {
        let start = before + sample_table::run_table(head);
        assert(s =~= start + (count + (delta + after)));
        bytes::lemma_u32_at(start, entries.last().0, delta + after);
        assert(s =~= (start + count) + (delta + after));
        bytes::lemma_u32_at(start + count, entries.last().1, after);
    } else {
        assert(s =~= before + (sample_table::run_table(head) + (count + delta + after)));
        lemma_run_table_at(before, head, count + delta + after, i);
    }
}

/// Looking up a sample among the entries from `e` on expands the runs from there.
proof fn lemma_duration_from(stts: Seq<u8>, runs: Seq<(nat, u32)>, e: int, i: int)
    requires
        0 <= e <= runs.len(),
        bytes::u32_at(stts, 4) == runs.len(),
        forall|j: int|
            0 <= j < runs.len() ==> #[trigger] reader::run_length(stts, j) == runs[j].0,
        forall|j: int|
            0 <= j < runs.len() ==> #[trigger] reader::run_duration(stts, j) == runs[j].1,
        0 <= i < expanded(runs.skip(e)).len(),
    ensures
        reader::duration_from(stts, e, i) == Some(expanded(runs.skip(e))[i] as int),
    decreases runs.len() - e,
{
    let rest = runs.skip(e);
    if e < runs.len() {
        lemma_expanded_first(rest);
        assert(rest.skip(1) =~= runs.skip(e + 1));
        assert(rest[0] == runs[e]);
        assert(reader::run_length(stts, e) == runs[e].0);
        assert(reader::run_duration(stts, e) == runs[e].1);
        if i >= runs[e].0 {
            lemma_duration_from(stts, runs, e + 1, i - runs[e].0);
        }
    }
}

/// Every frame's duration reads back from every track.
pub proof fn law_durations_read_back(sequence: SequenceView, k: nat, i: nat)
    requires
        sequence.file().len() <= u32::MAX,
        navigation::has_track(sequence, k),
        i < sequence.frames.len(),
    ensures
        reader::sample_duration(sequence.file(), k, i) == Some(
            sequence.frames[i as int].duration as int,
        ),
{
    broadcast use framing::group_framing;

    let durations = sequence::durations(sequence.frames);
    let runs = sample_table::runs(durations);
    let entries = sample_table::entries_of(runs);
    let count = bytes::low32(runs.len() as int);
    navigation::lemma_track_tables(sequence, k);
    samples::lemma_few_frames(sequence);
    sample_table::lemma_runs_bound(durations);
    law_runs_expand(durations);
    let stts = navigation::payload(sample_table::stts_box(durations));
    let head = framing::version_flags(0, 0);
    let nothing = Seq::<u8>::empty();
    assert(stts == head + (bytes::be32(count) + sample_table::run_table(entries))) by {
        broadcast use navigation::lemma_payload;

        reveal(sample_table::stts_box);
    }
    bytes::lemma_u32_at(head, count, sample_table::run_table(entries));
    let before = head + bytes::be32(count);
    assert(stts == before + (sample_table::run_table(entries) + nothing));
    assert forall|j: int| 0 <= j < runs.len() implies #[trigger] reader::run_length(stts, j)
        == runs[j].0 by {
        lemma_run_table_at(before, entries, nothing, j);
    }
    assert forall|j: int| 0 <= j < runs.len() implies #[trigger] reader::run_duration(stts, j)
        == runs[j].1 by {
        lemma_run_table_at(before, entries, nothing, j);
        assert(before.len() + 8 * j + 4 == 12 + 8 * j);
    }
    assert(runs.skip(0) =~= runs);
    lemma_duration_from(stts, runs, 0, i as int);
}

// ─── Sync samples ────────────────────────────────────────────────────

/// The sync table lists the sync frames and no other, each once and in order,
/// and it lists as many as there are frames only where all are sync frames.
pub proof fn law_sync_samples(frames: Seq<AnimFrameView>)
    requires
        frames.len() <= u32::MAX,
    ensures
        forall|i: int|
            0 <= i < frames.len() ==> (sequence::sync_samples(frames).contains((i + 1) as u32)
                <==> (#[trigger] frames[i]).is_sync),
        forall|a: int, b: int|
            0 <= a < b < sequence::sync_samples(frames).len() ==> sequence::sync_samples(frames)[a]
                < sequence::sync_samples(frames)[b],
        forall|a: int|
            0 <= a < sequence::sync_samples(frames).len() ==> 1 <= #[trigger] sequence::sync_samples(
                frames,
            )[a] <= frames.len(),
        sequence::sync_samples(frames).len() <= frames.len(),
        sequence::sync_samples(frames).len() == frames.len() <==> (forall|i: int|
            0 <= i < frames.len() ==> (#[trigger] frames[i]).is_sync),
    decreases frames.len(),
{
    if frames.len() > 0 {
        let head = frames.drop_last();
        let earlier = sequence::sync_samples(head);
        let sync = sequence::sync_samples(frames);
        law_sync_samples(head);
        assert forall|i: int| 0 <= i < frames.len() implies (sync.contains((i + 1) as u32) <==> (
        #[trigger] frames[i]).is_sync) by {
            if i < head.len() {
                assert(head[i] == frames[i]);
                if earlier.contains((i + 1) as u32) {
                    let a = earlier.index_of((i + 1) as u32);
                    assert(sync[a] == (i + 1) as u32);
                }
                if sync.contains((i + 1) as u32) {
                    let a = sync.index_of((i + 1) as u32);
                    assert(a < earlier.len() ==> earlier[a] == sync[a]);
                }
            } else {
                if frames.last().is_sync {
                    assert(sync[sync.len() - 1] == frames.len());
                } else if sync.contains((i + 1) as u32) {
                    let a = earlier.index_of((i + 1) as u32);
                    assert(earlier[a] <= head.len());
                }
            }
        }
        if sync.len() == frames.len() {
            assert forall|i: int| 0 <= i < frames.len() implies (#[trigger] frames[i]).is_sync by {
                if i < head.len() {
                    assert(head[i] == frames[i]);
                }
            }
        }
        if forall|i: int| 0 <= i < frames.len() ==> (#[trigger] frames[i]).is_sync {
            assert forall|i: int| 0 <= i < head.len() implies (#[trigger] head[i]).is_sync by {
                assert(head[i] == frames[i]);
            }
        }
    }
}

/// A reader may start decoding at the frames that were marked, and at no other.
pub proof fn law_sync_reads_back(sequence: SequenceView, k: nat, i: nat)
    requires
        sequence.file().len() <= u32::MAX,
        navigation::has_track(sequence, k),
        i < sequence.frames.len(),
    ensures
        reader::is_sync(sequence.file(), k, i) <==> sequence.frames[i as int].is_sync,
{
    broadcast use {framing::group_framing, bytes::lemma_be32_table_len};

    let sync = sequence::sync_samples(sequence.frames);
    let count = bytes::low32(sync.len() as int);
    navigation::lemma_track_tables(sequence, k);
    samples::lemma_few_frames(sequence);
    law_sync_samples(sequence.frames);
    let stss = navigation::payload(sample_table::stss_box(sync));
    let head = framing::version_flags(0, 0);
    let nothing = Seq::<u8>::empty();
    assert(stss == head + (bytes::be32(count) + bytes::be32_table(sync))) by {
        broadcast use navigation::lemma_payload;

        reveal(sample_table::stss_box);
    }
    bytes::lemma_u32_at(head, count, bytes::be32_table(sync));
    let before = head + bytes::be32(count);
    assert(stss == before + (bytes::be32_table(sync) + nothing));
    assert forall|j: int| 0 <= j < sync.len() implies #[trigger] reader::sync_at(stss, j)
        == sync[j] by {
        bytes::lemma_be32_table_at(before, sync, nothing, j);
    }
    assert(bytes::u32_at(stss, 4) == sync.len());
    assert(reader::inside(reader::sample_table(sequence.file(), k), STSS) == Some(stss));
    assert(sequence.frames[i as int].is_sync <==> sync.contains((i + 1) as u32));
    if sync.contains((i + 1) as u32) {
        let j = sync.index_of((i + 1) as u32);
        assert(reader::sync_at(stss, j) == i + 1);
        assert(reader::lists(stss, i + 1));
    }
    if reader::lists(stss, i + 1) {
        let j = choose|j: int|
            0 <= j < bytes::u32_at(stss, 4) && #[trigger] reader::sync_at(stss, j) == i + 1;
        assert(sync[j] == (i + 1) as u32);
    }
}

} // verus!
